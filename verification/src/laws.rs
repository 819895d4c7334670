//! Laws of the engine: what holds of every sale, subscription and treasury,
//! stated over the mathematical model and proved from it.

use crate::account::AccountView;
use crate::assoc::{distinct_keys, lemma_with_entry, lemma_without_key, lookup};
use crate::contract::ContractView;
use crate::deposit::{
    lemma_deposit_shares, lemma_register_pools_frame, lemma_register_pools_sales,
};
use crate::errors::Error;
use crate::holdings::{
    lemma_account_ledger, lemma_credit_holds, lemma_debit_holds, lemma_payment_balance,
    lemma_register_pools_holds, lemma_save_subscription_balance,
};
use crate::math::{lemma_mul_div_floor_le, mul_div_floor_spec};
use crate::sale::{lemma_stream_wf, OutTokenView, SaleView};
use crate::sub::SubscriptionView;
use crate::subscribe::{lemma_pay_outs_frame, reclaim_dust, referral_cut, referral_target};
use crate::withdraw::{lemma_withdraw_wf, requested_shares, sale_without_shares, Withdrawal};
use vstd::prelude::*;

verus! {

impl OutTokenView {
    /// What was put up in this pool: what remains and what was distributed.
    pub open spec fn put_up(self) -> nat {
        self.remaining + self.distributed
    }
}

impl SaleView {
    /// The in-tokens that the sale has taken and not given back: those paid
    /// out to the seller and those still pledged.
    pub open spec fn in_total(self) -> nat {
        self.in_token_paid + self.in_token_remaining
    }

    /// `self` offers the pools of `before`, each with as much put up.
    pub open spec fn conserves_pools(self, before: SaleView) -> bool {
        &&& self.out_tokens.len() == before.out_tokens.len()
        &&& forall|i: int|
            0 <= i < before.out_tokens.len() ==> (#[trigger] self.out_tokens[i]).put_up()
                == before.out_tokens[i].put_up() && self.out_tokens[i].token_account_id
                == before.out_tokens[i].token_account_id
    }
}

/// A touch keeps a sale well formed and conserves what was put up in each
/// pool and the in-tokens taken; the accumulators and the distributed
/// amounts never go back.
pub proof fn lemma_touch_conserves(sale: SaleView, now: nat, block_height: nat)
    requires
        sale.wf(),
    ensures
        sale.touch(now, block_height).wf(),
        sale.touch(now, block_height).conserves_pools(sale),
        sale.touch(now, block_height).in_total() == sale.in_total(),
        sale.touch(now, block_height).total_shares == sale.total_shares,
        sale.touch(now, block_height).last_timestamp >= sale.last_timestamp,
        forall|i: int|
            0 <= i < sale.out_tokens.len() ==> (#[trigger] sale.touch(
                now,
                block_height,
            ).out_tokens[i]).per_share >= sale.out_tokens[i].per_share && sale.touch(
                now,
                block_height,
            ).out_tokens[i].distributed >= sale.out_tokens[i].distributed,
{
    let after = sale.touch(now, block_height);
    if !sale.touch_is_noop(now) && sale.total_shares > 0 {
        let t = sale.touch_time(now);
        let delta = (t - sale.last_timestamp) as nat;
        let span = (sale.end_time() - sale.last_timestamp) as nat;
        lemma_mul_div_floor_le(sale.in_token_remaining, delta, span);
        assert forall|i: int| 0 <= i < sale.out_tokens.len() implies (#[trigger] after.out_tokens[i]).wf()
            && after.out_tokens[i].put_up() == sale.out_tokens[i].put_up()
            && after.out_tokens[i].token_account_id == sale.out_tokens[i].token_account_id
            && after.out_tokens[i].per_share >= sale.out_tokens[i].per_share
            && after.out_tokens[i].distributed >= sale.out_tokens[i].distributed by {
            assert(sale.out_tokens[i].wf());
            lemma_stream_wf(sale.out_tokens[i], delta, span, sale.total_shares);
        }
    }
}

/// A sale that has ended is terminal: a touch changes nothing.
pub proof fn lemma_touch_ended_is_noop(sale: SaleView, now: nat, block_height: nat)
    requires
        sale.has_ended(),
    ensures
        sale.touch(now, block_height) == sale,
{
}

/// A touch before the start, or at the instant of the last touch, changes
/// nothing.
pub proof fn lemma_touch_early_is_noop(sale: SaleView, now: nat, block_height: nat)
    requires
        now <= sale.last_timestamp,
    ensures
        sale.touch(now, block_height) == sale,
{
}

/// A touch at or after the end ends the sale, however short the sale: a
/// sale of one nanosecond has ended at the first touch after its start.
pub proof fn lemma_touch_reaches_end(sale: SaleView, now: nat, block_height: nat)
    requires
        sale.wf(),
        now >= sale.end_time(),
    ensures
        sale.touch(now, block_height).has_ended(),
        !sale.has_ended() ==> sale.touch(now, block_height).end_block_height == Some(block_height),
{
}

/// At its end a sale with subscribers has distributed every pool and paid
/// out every pledged in-token.
pub proof fn lemma_touch_at_end_distributes_all(sale: SaleView, now: nat, block_height: nat)
    requires
        sale.wf(),
        now >= sale.end_time(),
        !sale.has_ended(),
        sale.total_shares > 0,
    ensures
        sale.touch(now, block_height).in_token_remaining == 0,
        forall|i: int|
            0 <= i < sale.out_tokens.len() ==> (#[trigger] sale.touch(
                now,
                block_height,
            ).out_tokens[i]).remaining == 0,
{
    let span = (sale.end_time() - sale.last_timestamp) as nat;
    assert forall|a: nat| mul_div_floor_spec(a, span, span) == a by {
        vstd::arithmetic::div_mod::lemma_div_multiples_vanish(a as int, span as int);
        assert(a * span == span * a) by (nonlinear_arith);
    }
    let after = sale.touch(now, block_height);
    assert forall|i: int| 0 <= i < sale.out_tokens.len() implies (#[trigger] after.out_tokens[i]).remaining
        == 0 by {
        let o = sale.out_tokens[i];
        assert(o.streamed(span, span) == o.remaining);
    }
}

/// While nobody is subscribed, time passes without anything being
/// distributed: the pools stay whole for those who subscribe later.
pub proof fn lemma_touch_idle(sale: SaleView, now: nat, block_height: nat)
    requires
        sale.total_shares == 0,
    ensures
        sale.touch(now, block_height).out_tokens == sale.out_tokens,
        sale.touch(now, block_height).in_token_remaining == sale.in_token_remaining,
        sale.touch(now, block_height).in_token_paid == sale.in_token_paid,
        sale.touch(now, block_height).in_token_paid_unclaimed == sale.in_token_paid_unclaimed,
        sale.touch(now, block_height).total_shares == 0,
{
}

/// In a well-formed sale without shares no in-tokens remain.
pub proof fn lemma_no_shares_no_remainder(sale: SaleView)
    requires
        sale.wf(),
        sale.total_shares == 0,
    ensures
        sale.in_token_remaining == 0,
{
}

/// While every share is worth one in-token (as before the start of a sale),
/// a deposit followed at once by the withdrawal of its shares returns
/// exactly what was deposited.
pub proof fn lemma_deposit_withdraw_round_trip(sale: SaleView, in_amount: nat)
    requires
        sale.wf(),
        sale.total_shares == sale.in_token_remaining,
        sale.in_amount_to_shares(in_amount, false) is Ok,
    ensures
        ({
            let shares = sale.in_amount_to_shares(in_amount, false).unwrap();
            let grown = SaleView {
                total_shares: sale.total_shares + shares,
                in_token_remaining: sale.in_token_remaining + in_amount,
                ..sale
            };
            &&& shares == in_amount
            &&& grown.shares_to_in_balance(shares) == in_amount
            &&& grown.total_shares == grown.in_token_remaining
        }),
{
    let total = sale.total_shares;
    if total > 0 {
        vstd::arithmetic::div_mod::lemma_div_multiples_vanish(in_amount as int, total as int);
        assert(in_amount * total == total * in_amount) by (nonlinear_arith);
    }
    if in_amount > 0 {
        let grown_total = total + in_amount;
        vstd::arithmetic::div_mod::lemma_div_multiples_vanish(in_amount as int, grown_total as int);
    }
}

/// The proceeds of a sale that the engine owns and that takes the protocol
/// token are burned, all of them: settling them does not touch the
/// treasury's ledger. (The pools are settled apart: the treasury banks its
/// part of them as of any sale.)
pub proof fn lemma_engine_sale_burns_proceeds(c: ContractView, sale: SaleView, engine_id: Seq<char>)
    requires
        sale.owner_id == engine_id,
        sale.in_token_account_id == c.treasury.skyward_token_id,
        c.settle_proceeds(sale, engine_id) is Ok,
    ensures
        ({
            let (after, settled) = c.settle_proceeds(sale, engine_id).unwrap();
            &&& after.treasury.balances == c.treasury.balances
            &&& after.treasury.skyward_burned_amount == c.treasury.skyward_burned_amount
                + sale.in_token_paid_unclaimed
            &&& after.accounts == c.accounts
            &&& settled.in_token_paid_unclaimed == 0
        }),
{
}

/// The proceeds of a third party's sale go to the owner, less one part in a
/// hundred for the treasury; of the protocol token the treasury takes
/// nothing.
pub proof fn lemma_third_party_sale_pays_owner(c: ContractView, sale: SaleView, engine_id: Seq<char>)
    requires
        sale.owner_id != engine_id,
        sale.in_token_paid_unclaimed > 0,
        c.settle_proceeds(sale, engine_id) is Ok,
    ensures
        ({
            let (after, settled) = c.settle_proceeds(sale, engine_id).unwrap();
            let fee = if sale.in_token_account_id == c.treasury.skyward_token_id {
                0
            } else {
                sale.in_token_paid_unclaimed / 100
            };
            let banked = if sale.in_token_account_id == c.treasury.skyward_token_id {
                c
            } else {
                c.bank(sale.in_token_account_id, fee).unwrap()
            };
            &&& after == banked.credit(
                sale.owner_id,
                sale.in_token_account_id,
                (sale.in_token_paid_unclaimed - fee) as nat,
            ).unwrap()
            &&& after.treasury.skyward_burned_amount == c.treasury.skyward_burned_amount
            &&& settled.in_token_paid_unclaimed == 0
        }),
{
}

impl SubscriptionView {
    /// The in-tokens that the subscription accounts for: those spent and
    /// those that its shares stood for at the last touch.
    pub open spec fn in_accounted(self) -> nat {
        self.spent_in_balance_without_shares + self.last_in_balance
    }
}

/// A touch never loses track of in-tokens: what a subscription has spent and
/// what its shares stand for together are at least what they were, so that
/// every in-token ever pledged is either spent or still there. What the
/// shares have lost since the last touch is what the touch books as spent.
pub proof fn lemma_touch_accounts_for_in_tokens(sub: SubscriptionView, sale: SaleView)
    ensures
        sub.touched(sale).in_accounted() >= sub.in_accounted(),
        sale.shares_to_in_balance(sub.shares) <= sub.last_in_balance ==> sub.touched(
            sale,
        ).in_accounted() == sub.in_accounted(),
        sub.touched(sale).last_in_balance == sale.shares_to_in_balance(sub.shares),
        sub.touched(sale).shares == sub.shares,
        sub.touched(sale).claimed_out_balance == sub.claimed_out_balance,
{
}

/// Reclaiming dust leaves a subscription without shares exactly when its
/// shares stood for nothing.
pub proof fn lemma_dust_is_reclaimed(sale: SaleView, sub: SubscriptionView)
    requires
        sub.shares > 0,
        sale.shares_to_in_balance(sub.shares) == 0,
        reclaim_dust(sale, sub) is Ok,
    ensures
        reclaim_dust(sale, sub).unwrap().1.shares == 0,
        reclaim_dust(sale, sub).unwrap().0.total_shares == sale.total_shares - sub.shares,
{
}

impl OutTokenView {
    /// Nothing is left to settle of this pool: the treasury has banked its
    /// part, and once the sale has ended nothing remains.
    pub open spec fn is_settled(self, ended: bool) -> bool {
        &&& self.treasury_unclaimed is Some ==> self.treasury_unclaimed.unwrap() == 0
        &&& ended ==> self.remaining == 0
    }
}

/// Settling pools settles them: the first `n` pools are left with nothing to
/// settle, each pool keeps what was put up in it, and the sales of the
/// engine are not touched.
pub proof fn lemma_settle_pools_settles(
    c: ContractView,
    owner_id: Seq<char>,
    engine_id: Seq<char>,
    ended: bool,
    pools: Seq<OutTokenView>,
    n: nat,
)
    requires
        n <= pools.len(),
        c.settle_pools(owner_id, engine_id, ended, pools, n) is Ok,
    ensures
        ({
            let (after, settled) = c.settle_pools(owner_id, engine_id, ended, pools, n).unwrap();
            &&& after.sales == c.sales
            &&& settled.len() == pools.len()
            &&& forall|j: int| 0 <= j < n ==> (#[trigger] settled[j]).is_settled(ended)
            &&& forall|j: int| n <= j < pools.len() ==> (#[trigger] settled[j]) == pools[j]
            &&& forall|j: int|
                0 <= j < pools.len() ==> (#[trigger] settled[j]).put_up() == pools[j].put_up()
                    && settled[j].token_account_id == pools[j].token_account_id
                    && settled[j].per_share == pools[j].per_share && (pools[j].wf()
                    ==> settled[j].wf())
        }),
    decreases n,
{
    if n > 0 {
        lemma_settle_pools_settles(c, owner_id, engine_id, ended, pools, (n - 1) as nat);
        let (c1, before) = c.settle_pools(owner_id, engine_id, ended, pools, (n - 1) as nat).unwrap();
        let pool = before[n - 1];
        let (c2, after_pool) = c1.settle_pool(owner_id, engine_id, ended, pool).unwrap();
        assert(pool == pools[n - 1]);
        if pool.wf() {
            assert(pool.distributed * crate::math::MULTIPLIER <= (pool.distributed + pool.remaining)
                * crate::math::MULTIPLIER) by (nonlinear_arith);
        }
    }
}

/// Settled pools stay as they are, and the engine with them.
pub proof fn lemma_settled_pools_stay(
    c: ContractView,
    owner_id: Seq<char>,
    engine_id: Seq<char>,
    ended: bool,
    pools: Seq<OutTokenView>,
    n: nat,
)
    requires
        n <= pools.len(),
        forall|j: int| 0 <= j < n ==> (#[trigger] pools[j]).is_settled(ended),
    ensures
        c.settle_pools(owner_id, engine_id, ended, pools, n) == Ok::<
            (ContractView, Seq<OutTokenView>),
            Error,
        >((c, pools)),
    decreases n,
{
    if n > 0 {
        lemma_settled_pools_stay(c, owner_id, engine_id, ended, pools, (n - 1) as nat);
        assert(pools[n - 1].is_settled(ended));
        assert(pools.update(n - 1, pools[n - 1]) =~= pools);
    }
}

/// Distributing what is unclaimed changes no sale but the one asked for,
/// and of that one it conserves what was put up in each pool and the
/// in-tokens taken.
pub proof fn lemma_distribute_conserves(
    c: ContractView,
    sale_id: nat,
    engine_id: Seq<char>,
    now: nat,
    block_height: nat,
)
    requires
        c.sale_distribute_unclaimed_tokens(sale_id, engine_id, now, block_height) is Ok,
        c.sales[sale_id as int].wf(),
    ensures
        ({
            let after = c.sale_distribute_unclaimed_tokens(
                sale_id,
                engine_id,
                now,
                block_height,
            ).unwrap();
            &&& after.sales.len() == c.sales.len()
            &&& forall|j: int|
                0 <= j < c.sales.len() && j != sale_id ==> (#[trigger] after.sales[j]) == c.sales[j]
            &&& after.sales[sale_id as int].wf()
            &&& after.sales[sale_id as int] == SaleView {
                out_tokens: after.sales[sale_id as int].out_tokens,
                in_token_paid_unclaimed: 0,
                ..c.sales[sale_id as int].touch(now, block_height)
            }
            &&& after.sales[sale_id as int].conserves_pools(c.sales[sale_id as int])
            &&& after.sales[sale_id as int].in_total() == c.sales[sale_id as int].in_total()
            &&& forall|j: int|
                0 <= j < after.sales[sale_id as int].out_tokens.len() ==> (
                #[trigger] after.sales[sale_id as int].out_tokens[j]).is_settled(
                    after.sales[sale_id as int].has_ended(),
                )
        }),
{
    let sale = c.sales[sale_id as int].touch(now, block_height);
    lemma_touch_conserves(c.sales[sale_id as int], now, block_height);
    let (c1, settled) = c.settle_proceeds(sale, engine_id).unwrap();
    assert(c1.sales == c.sales);
    lemma_settle_pools_settles(
        c1,
        sale.owner_id,
        engine_id,
        sale.has_ended(),
        sale.out_tokens,
        sale.out_tokens.len(),
    );
    let (c2, pools) = c1.settle_pools(
        sale.owner_id,
        engine_id,
        sale.has_ended(),
        sale.out_tokens,
        sale.out_tokens.len(),
    ).unwrap();
    let after_sale = SaleView { out_tokens: pools, ..settled };
    assert forall|j: int| 0 <= j < after_sale.out_tokens.len() implies (
    #[trigger] after_sale.out_tokens[j]).wf() by {
        assert(sale.out_tokens[j].wf());
        assert(pools[j].put_up() == sale.out_tokens[j].put_up());
    }
}

/// Once a sale has ended and what was unclaimed of it has been distributed,
/// distributing again changes nothing.
pub proof fn lemma_distribute_twice(
    c: ContractView,
    sale_id: nat,
    engine_id: Seq<char>,
    now: nat,
    block_height: nat,
    later: nat,
    later_block_height: nat,
)
    requires
        c.sale_distribute_unclaimed_tokens(sale_id, engine_id, now, block_height) is Ok,
        c.sales[sale_id as int].wf(),
        c.sales[sale_id as int].touch(now, block_height).has_ended(),
    ensures
        ({
            let after = c.sale_distribute_unclaimed_tokens(
                sale_id,
                engine_id,
                now,
                block_height,
            ).unwrap();
            after.sale_distribute_unclaimed_tokens(sale_id, engine_id, later, later_block_height)
                == Ok::<ContractView, Error>(after)
        }),
{
    let after = c.sale_distribute_unclaimed_tokens(sale_id, engine_id, now, block_height).unwrap();
    lemma_distribute_conserves(c, sale_id, engine_id, now, block_height);
    let sale = after.sales[sale_id as int];
    assert(sale.has_ended());
    lemma_touch_ended_is_noop(sale, later, later_block_height);
    lemma_settled_pools_stay(
        after,
        sale.owner_id,
        engine_id,
        true,
        sale.out_tokens,
        sale.out_tokens.len(),
    );
    assert(after.sales.update(sale_id as int, sale) =~= after.sales);
}

/// Paying out never takes from what a subscription has claimed, and changes
/// nothing else of the subscription.
pub proof fn lemma_pay_outs_claimed(
    c: ContractView,
    account_id: Seq<char>,
    sale: SaleView,
    sub: SubscriptionView,
    earned: Seq<nat>,
    n: nat,
)
    requires
        n <= sub.claimed_out_balance.len(),
        c.pay_outs(account_id, sale, sub, earned, n) is Ok,
    ensures
        ({
            let paid = c.pay_outs(account_id, sale, sub, earned, n).unwrap().1;
            &&& paid == SubscriptionView { claimed_out_balance: paid.claimed_out_balance, ..sub }
            &&& paid.claimed_out_balance.len() == sub.claimed_out_balance.len()
            &&& forall|j: int|
                0 <= j < sub.claimed_out_balance.len() ==> (#[trigger] paid.claimed_out_balance[j])
                    >= sub.claimed_out_balance[j]
            &&& c.pay_outs(account_id, sale, sub, earned, n).unwrap().0.sales == c.sales
        }),
    decreases n,
{
    if n > 0 {
        lemma_pay_outs_claimed(c, account_id, sale, sub, earned, (n - 1) as nat);
    }
}

/// What a subscription has claimed of each out-token never decreases: a
/// subscription that is brought up to date has claimed at least what the
/// stored one had.
pub proof fn lemma_claimed_never_decreases(
    c: ContractView,
    account_id: Seq<char>,
    sale_id: nat,
    sale: SaleView,
    referral_id: Option<Seq<char>>,
    passed_permission_check: bool,
)
    requires
        c.update_subscription(account_id, sale_id, sale, referral_id, passed_permission_check)
            is Ok,
        c.account(account_id).unwrap().subscription_or_fresh(sale_id, sale, referral_id).wf(),
    ensures
        ({
            let before = c.account(account_id).unwrap().subscription_or_fresh(
                sale_id,
                sale,
                referral_id,
            );
            let after = c.update_subscription(
                account_id,
                sale_id,
                sale,
                referral_id,
                passed_permission_check,
            ).unwrap().2;
            &&& after.claimed_out_balance.len() == before.claimed_out_balance.len()
            &&& forall|j: int|
                0 <= j < before.claimed_out_balance.len() ==> (
                #[trigger] after.claimed_out_balance[j]) >= before.claimed_out_balance[j]
        }),
{
    let before = c.account(account_id).unwrap().subscription_or_fresh(
        sale_id,
        sale,
        referral_id,
    );
    let earned = before.earnings(sale);
    lemma_pay_outs_claimed(c, account_id, sale, before.touched(sale), earned, earned.len());
}

/// A claim changes no sale but the one asked for, and of that one it
/// conserves what was put up in each pool and the in-tokens taken; only
/// dust shares leave it.
pub proof fn lemma_claim_conserves(
    c: ContractView,
    account_id: Seq<char>,
    sale_id: nat,
    now: nat,
    block_height: nat,
)
    requires
        c.sale_claim_out_tokens(account_id, sale_id, now, block_height) is Ok,
        c.sales[sale_id as int].wf(),
    ensures
        ({
            let after = c.sale_claim_out_tokens(account_id, sale_id, now, block_height).unwrap();
            let touched = c.sales[sale_id as int].touch(now, block_height);
            &&& after.sales.len() == c.sales.len()
            &&& forall|j: int|
                0 <= j < c.sales.len() && j != sale_id ==> (#[trigger] after.sales[j]) == c.sales[j]
            &&& after.sales[sale_id as int] == SaleView {
                total_shares: after.sales[sale_id as int].total_shares,
                ..touched
            }
            &&& after.sales[sale_id as int].total_shares <= touched.total_shares
            &&& after.sales[sale_id as int].conserves_pools(c.sales[sale_id as int])
            &&& after.sales[sale_id as int].in_total() == c.sales[sale_id as int].in_total()
            &&& after.treasury.skyward_burned_amount >= c.treasury.skyward_burned_amount
        }),
{
    let touched = c.sales[sale_id as int].touch(now, block_height);
    lemma_touch_conserves(c.sales[sale_id as int], now, block_height);
    let account = c.account(account_id).unwrap();
    let before = account.subscription_or_fresh(sale_id, touched, None);
    let earned = before.earnings(touched);
    lemma_settle_subscription_keeps(c, account_id, touched, before.touched(touched), earned);
}

/// Settling a subscription touches no stored sale and burns, if anything,
/// more; of the sale at hand it changes the shares only.
pub proof fn lemma_settle_subscription_keeps(
    c: ContractView,
    account_id: Seq<char>,
    sale: SaleView,
    sub: SubscriptionView,
    earned: Seq<nat>,
)
    requires
        c.settle_subscription(account_id, sale, sub, earned) is Ok,
    ensures
        ({
            let (after, swept, cleared) = c.settle_subscription(
                account_id,
                sale,
                sub,
                earned,
            ).unwrap();
            &&& after.sales == c.sales
            &&& swept == SaleView { total_shares: swept.total_shares, ..sale }
            &&& swept.total_shares <= sale.total_shares
            &&& after.treasury.skyward_burned_amount >= c.treasury.skyward_burned_amount
        }),
{
    lemma_pay_outs_keeps(c, account_id, sale, sub, earned, earned.len());
}

/// Paying out touches no stored sale and burns, if anything, more.
pub proof fn lemma_pay_outs_keeps(
    c: ContractView,
    account_id: Seq<char>,
    sale: SaleView,
    sub: SubscriptionView,
    earned: Seq<nat>,
    n: nat,
)
    requires
        c.pay_outs(account_id, sale, sub, earned, n) is Ok,
    ensures
        c.pay_outs(account_id, sale, sub, earned, n).unwrap().0.sales == c.sales,
        c.pay_outs(account_id, sale, sub, earned, n).unwrap().0.treasury.skyward_burned_amount
            >= c.treasury.skyward_burned_amount,
    decreases n,
{
    if n > 0 {
        lemma_pay_outs_keeps(c, account_id, sale, sub, earned, (n - 1) as nat);
    }
}

/// A deposit that does not have to wait adds what is pledged to the
/// in-tokens of the sale, and conserves what was put up in each pool.
pub proof fn lemma_deposit_conserves(
    c: ContractView,
    sale_id: nat,
    account_id: Seq<char>,
    in_amount: nat,
    referral_id: Option<Seq<char>>,
    passed_permission_check: bool,
    now: nat,
    block_height: nat,
)
    requires
        c.deposit_in_amount(
            sale_id,
            account_id,
            in_amount,
            referral_id,
            passed_permission_check,
            now,
            block_height,
        ) is Ok,
        c.sales[sale_id as int].wf(),
    ensures
        ({
            let (after, asked) = c.deposit_in_amount(
                sale_id,
                account_id,
                in_amount,
                referral_id,
                passed_permission_check,
                now,
                block_height,
            ).unwrap();
            &&& asked is Some ==> after == c
            &&& asked is None ==> {
                &&& after.sales.len() == c.sales.len()
                &&& forall|j: int|
                    0 <= j < c.sales.len() && j != sale_id ==> (#[trigger] after.sales[j])
                        == c.sales[j]
                &&& after.sales[sale_id as int].conserves_pools(c.sales[sale_id as int])
                &&& after.sales[sale_id as int].in_total() == c.sales[sale_id as int].in_total()
                    + in_amount
            }
        }),
{
    let touched = c.sales[sale_id as int].touch(now, block_height);
    lemma_touch_conserves(c.sales[sale_id as int], now, block_height);
    if !c.awaits_permission(account_id, sale_id, touched, passed_permission_check) {
        let debited = c.debit(account_id, touched.in_token_account_id, in_amount).unwrap();
        let pools = touched.out_tokens;
        lemma_register_pools_sales(debited, account_id, pools, pools.len());
        let registered = debited.register_pools(account_id, pools, pools.len());
        let account = registered.account(account_id).unwrap();
        let before = account.subscription_or_fresh(sale_id, touched, referral_id);
        lemma_settle_subscription_keeps(
            registered,
            account_id,
            touched,
            before.touched(touched),
            before.earnings(touched),
        );
    }
}

/// A withdrawal takes from the in-tokens of the sale exactly what the
/// withdrawn shares stood for, and conserves what was put up in each pool.
pub proof fn lemma_withdraw_conserves(
    c: ContractView,
    sale_id: nat,
    account_id: Seq<char>,
    request: Withdrawal,
    now: nat,
    block_height: nat,
)
    requires
        c.withdraw_in_token(sale_id, account_id, request, now, block_height) is Ok,
        c.sales[sale_id as int].wf(),
    ensures
        ({
            let after = c.withdraw_in_token(sale_id, account_id, request, now, block_height).unwrap();
            let touched = c.sales[sale_id as int].touch(now, block_height);
            let sub = c.account(account_id).unwrap().subscription_or_fresh(
                sale_id,
                touched,
                None,
            ).touched(touched);
            let shares = requested_shares(touched, sub, request).unwrap();
            &&& after.sales.len() == c.sales.len()
            &&& forall|j: int|
                0 <= j < c.sales.len() && j != sale_id ==> (#[trigger] after.sales[j]) == c.sales[j]
            &&& after.sales[sale_id as int].conserves_pools(c.sales[sale_id as int])
            &&& after.sales[sale_id as int].in_total() + touched.shares_to_in_balance(shares)
                == c.sales[sale_id as int].in_total()
        }),
{
    let touched = c.sales[sale_id as int].touch(now, block_height);
    lemma_touch_conserves(c.sales[sale_id as int], now, block_height);
    let account = c.account(account_id).unwrap();
    let before = account.subscription_or_fresh(sale_id, touched, None);
    let sub = before.touched(touched);
    let shares = requested_shares(touched, sub, request).unwrap();
    lemma_withdraw_wf(touched, shares);
    let credited = c.credit(
        account_id,
        touched.in_token_account_id,
        touched.shares_to_in_balance(shares),
    ).unwrap();
    let left = sale_without_shares(touched, shares);
    let kept = SubscriptionView {
        shares: (sub.shares - shares) as nat,
        last_in_balance: left.shares_to_in_balance((sub.shares - shares) as nat),
        ..sub
    };
    lemma_settle_subscription_keeps(credited, account_id, left, kept, before.earnings(touched));
}

/// A claim collects dust: a subscription whose shares stand for no in-token
/// any more loses them to the sale, and is dropped where the sale is not
/// gated or has ended.
pub proof fn lemma_claim_collects_dust(
    c: ContractView,
    account_id: Seq<char>,
    sale_id: nat,
    now: nat,
    block_height: nat,
)
    requires
        distinct_keys(c.accounts),
        c.account(account_id) is Some,
        distinct_keys(c.account(account_id).unwrap().subs),
        sale_id < c.sales.len(),
        lookup(c.account(account_id).unwrap().subs, sale_id) is Some,
        lookup(c.account(account_id).unwrap().subs, sale_id).unwrap().wf(),
        lookup(c.account(account_id).unwrap().subs, sale_id).unwrap().shares > 0,
        c.sales[sale_id as int].touch(now, block_height).shares_to_in_balance(
            lookup(c.account(account_id).unwrap().subs, sale_id).unwrap().shares,
        ) == 0,
        c.sale_claim_out_tokens(account_id, sale_id, now, block_height) is Ok,
    ensures
        ({
            let after = c.sale_claim_out_tokens(account_id, sale_id, now, block_height).unwrap();
            let touched = c.sales[sale_id as int].touch(now, block_height);
            let shares = lookup(c.account(account_id).unwrap().subs, sale_id).unwrap().shares;
            &&& after.sales[sale_id as int].total_shares == touched.total_shares - shares
            &&& after.account(account_id) is Some
            &&& (touched.permissions_contract_id is None || touched.has_ended()) ==> lookup(
                after.account(account_id).unwrap().subs,
                sale_id,
            ) is None
            &&& !(touched.permissions_contract_id is None || touched.has_ended()) ==> lookup(
                after.account(account_id).unwrap().subs,
                sale_id,
            ) is Some && lookup(after.account(account_id).unwrap().subs, sale_id).unwrap().shares
                == 0
        }),
{
    let touched = c.sales[sale_id as int].touch(now, block_height);
    let account = c.account(account_id).unwrap();
    let before = account.subscription_or_fresh(sale_id, touched, None);
    let earned = before.earnings(touched);
    let sub = before.touched(touched);
    lemma_pay_outs_claimed(c, account_id, touched, sub, earned, earned.len());
    lemma_pay_outs_frame(c, account_id, touched, sub, earned, earned.len());
    lemma_pay_outs_subs(c, account_id, touched, sub, earned, earned.len());
    let (c1, swept, cleared) = c.update_subscription(account_id, sale_id, touched, None, false).unwrap();
    let holder = c1.account(account_id).unwrap();
    lemma_without_key(holder.subs, sale_id);
    lemma_with_entry(holder.subs, sale_id, cleared);
    lemma_with_entry(c1.accounts, account_id, holder.save_subscription(sale_id, swept, cleared));
}

/// Paying out leaves the subscriptions of every account as they are.
pub proof fn lemma_pay_outs_subs(
    c: ContractView,
    account_id: Seq<char>,
    sale: SaleView,
    sub: SubscriptionView,
    earned: Seq<nat>,
    n: nat,
)
    requires
        distinct_keys(c.accounts),
        c.pay_outs(account_id, sale, sub, earned, n) is Ok,
    ensures
        forall|id: Seq<char>|
            c.account(id) is Some ==> (#[trigger] c.pay_outs(
                account_id,
                sale,
                sub,
                earned,
                n,
            ).unwrap().0.account(id)) is Some && c.pay_outs(
                account_id,
                sale,
                sub,
                earned,
                n,
            ).unwrap().0.account(id).unwrap().subs == c.account(id).unwrap().subs,
        distinct_keys(c.pay_outs(account_id, sale, sub, earned, n).unwrap().0.accounts),
    decreases n,
{
    if n > 0 {
        lemma_pay_outs_subs(c, account_id, sale, sub, earned, (n - 1) as nat);
        let (c1, paid) = c.pay_outs(account_id, sale, sub, earned, (n - 1) as nat).unwrap();
        let amount = earned[n - 1];
        if amount > 0 {
            let pool = sale.out_tokens[n - 1];
            let cut = referral_cut(pool, paid, amount);
            let target = referral_target(sale, paid);
            lemma_credit_subs(c1, target, pool.token_account_id, cut);
            let c2 = c1.pay_referral(target, pool.token_account_id, cut).unwrap();
            lemma_credit_subs(c2, account_id, pool.token_account_id, (amount - cut) as nat);
        }
    }
}

/// A payment leaves the subscriptions of every account as they are.
pub proof fn lemma_credit_subs(c: ContractView, account_id: Seq<char>, token_id: Seq<char>, amount: nat)
    requires
        distinct_keys(c.accounts),
    ensures
        c.credit(account_id, token_id, amount) is Ok ==> distinct_keys(
            c.credit(account_id, token_id, amount).unwrap().accounts,
        ) && forall|id: Seq<char>|
            c.account(id) is Some ==> (#[trigger] c.credit(
                account_id,
                token_id,
                amount,
            ).unwrap().account(id)) is Some && c.credit(account_id, token_id, amount).unwrap().account(
                id,
            ).unwrap().subs == c.account(id).unwrap().subs,
        c.pay_referral(account_id, token_id, amount) is Ok ==> distinct_keys(
            c.pay_referral(account_id, token_id, amount).unwrap().accounts,
        ) && forall|id: Seq<char>|
            c.account(id) is Some ==> (#[trigger] c.pay_referral(
                account_id,
                token_id,
                amount,
            ).unwrap().account(id)) is Some && c.pay_referral(
                account_id,
                token_id,
                amount,
            ).unwrap().account(id).unwrap().subs == c.account(id).unwrap().subs,
{
    if c.account(account_id) is Some {
        let a = c.account(account_id).unwrap();
        lemma_with_entry(c.accounts, account_id, a.deposit(token_id, amount));
    }
}

/// Where nothing was earned, nothing is paid out.
pub proof fn lemma_no_earnings_no_payment(
    c: ContractView,
    account_id: Seq<char>,
    sale: SaleView,
    sub: SubscriptionView,
    earned: Seq<nat>,
    n: nat,
)
    requires
        forall|i: int| 0 <= i < n ==> (#[trigger] earned[i]) == 0,
    ensures
        c.pay_outs(account_id, sale, sub, earned, n) == Ok::<
            (ContractView, SubscriptionView),
            Error,
        >((c, sub)),
    decreases n,
{
    if n > 0 {
        lemma_no_earnings_no_payment(c, account_id, sale, sub, earned, (n - 1) as nat);
        assert(earned[n - 1] == 0);
    }
}

/// A subscription whose snapshots are the sale's accumulators has earned
/// nothing, and its touch changes the snapshots by nothing.
pub proof fn lemma_snapshot_earns_nothing(sub: SubscriptionView, sale: SaleView)
    requires
        sub.last_out_per_share.len() == sale.out_tokens.len(),
        forall|i: int|
            0 <= i < sale.out_tokens.len() ==> sub.last_out_per_share[i] == (
            #[trigger] sale.out_tokens[i]).per_share,
        sub.shares <= u128::MAX,
    ensures
        sub.earnings_fit(sale, sale.out_tokens.len() as int),
        sub.earnings(sale).len() == sale.out_tokens.len(),
        forall|i: int| 0 <= i < sale.out_tokens.len() ==> (#[trigger] sub.earnings(sale)[i]) == 0,
        sub.touched(sale).last_out_per_share == sub.last_out_per_share,
{
    assert(0 * sub.shares == 0) by (nonlinear_arith);
    assert(crate::math::wide_limit() > 0) by (nonlinear_arith)
        requires
            crate::math::wide_limit() == crate::math::limb_base() * crate::math::limb_base()
                * crate::math::limb_base() * crate::math::limb_base(),
            crate::math::limb_base() == 0x1_0000_0000_0000_0000,
    ;
    assert forall|i: int| 0 <= i < sale.out_tokens.len() implies crate::math::accrual_fits(
        (#[trigger] sale.out_tokens[i]).per_share,
        sub.last_out_per_share[i],
        sub.shares,
    ) && sub.earned(sale, i) == 0 by {
        let p = sale.out_tokens[i].per_share;
        assert((p - p) * sub.shares == 0);
    }
    assert(sub.touched(sale).last_out_per_share =~= sub.last_out_per_share);
}

/// Before a sale starts, while every share is worth one in-token, a new
/// subscriber who deposits and then withdraws all shares gets back exactly
/// what was deposited: every balance of every account and of the treasury
/// and the sale are as they were before the deposit. (The out-tokens of the
/// sale that the deposit has registered on the account stay registered,
/// with nothing.)
pub proof fn lemma_deposit_then_withdraw_all(
    c: ContractView,
    sale_id: nat,
    account_id: Seq<char>,
    in_amount: nat,
    referral_id: Option<Seq<char>>,
    passed_permission_check: bool,
    now: nat,
    block_height: nat,
    later: nat,
    later_block_height: nat,
    other_id: Seq<char>,
    token_id: Seq<char>,
)
    requires
        c.ledgers_wf(),
        sale_id < c.sales.len(),
        c.sales[sale_id as int].wf(),
        c.sales[sale_id as int].total_shares == c.sales[sale_id as int].in_token_remaining,
        now <= later <= c.sales[sale_id as int].start_time,
        0 < in_amount <= u128::MAX,
        c.account(account_id) is Some,
        distinct_keys(c.account(account_id).unwrap().subs),
        lookup(c.account(account_id).unwrap().subs, sale_id) is None,
        c.deposit_in_amount(
            sale_id,
            account_id,
            in_amount,
            referral_id,
            passed_permission_check,
            now,
            block_height,
        ) is Ok,
        c.deposit_in_amount(
            sale_id,
            account_id,
            in_amount,
            referral_id,
            passed_permission_check,
            now,
            block_height,
        ).unwrap().1 is None,
        c.deposit_in_amount(
            sale_id,
            account_id,
            in_amount,
            referral_id,
            passed_permission_check,
            now,
            block_height,
        ).unwrap().0.withdraw_in_token(
            sale_id,
            account_id,
            Withdrawal::Shares(None),
            later,
            later_block_height,
        ) is Ok,
    ensures
        ({
            let after = c.deposit_in_amount(
                sale_id,
                account_id,
                in_amount,
                referral_id,
                passed_permission_check,
                now,
                block_height,
            ).unwrap().0.withdraw_in_token(
                sale_id,
                account_id,
                Withdrawal::Shares(None),
                later,
                later_block_height,
            ).unwrap();
            &&& after.account(account_id) is Some
            &&& after.balance(other_id, token_id) == c.balance(other_id, token_id)
            &&& after.treasury.balance_of(token_id) == c.treasury.balance_of(token_id)
            &&& after.treasury.skyward_burned_amount == c.treasury.skyward_burned_amount
            &&& after.sales == c.sales
        }),
{
    let sale = c.sales[sale_id as int];
    lemma_touch_early_is_noop(sale, now, block_height);
    let account = c.account(account_id).unwrap();
    let token = sale.in_token_account_id;
    let pools = sale.out_tokens;
    // The deposit.
    lemma_account_ledger(c, account_id);
    let lowered = account.withdraw(token, in_amount);
    lemma_with_entry(
        account.balances,
        token,
        (account.balance_of(token).unwrap() - in_amount) as nat,
    );
    lemma_with_entry(c.accounts, account_id, lowered);
    lemma_payment_balance(c, account_id, token, in_amount, other_id, token_id);
    lemma_debit_holds(c, account_id, token, in_amount, token_id);
    let debited = c.debit(account_id, token, in_amount).unwrap();
    assert(debited.account(account_id) == Some(lowered));
    lemma_register_pools_holds(debited, account_id, pools, pools.len(), other_id, token_id);
    lemma_register_pools_frame(debited, account_id, pools, pools.len());
    let registered = debited.register_pools(account_id, pools, pools.len());
    let holder = registered.account(account_id).unwrap();
    assert(holder.subs == account.subs);
    let fresh = SubscriptionView::fresh(sale, referral_id);
    assert(holder.subscription_or_fresh(sale_id, sale, referral_id) == fresh);
    lemma_snapshot_earns_nothing(fresh, sale);
    let earned = fresh.earnings(sale);
    lemma_no_earnings_no_payment(registered, account_id, sale, fresh.touched(sale), earned, earned.len());
    let sub = fresh.touched(sale);
    assert(sub.shares == 0);
    assert(reclaim_dust(sale, sub) == Ok::<(SaleView, SubscriptionView), Error>((sale, sub)));
    assert(registered.update_subscription(
        account_id,
        sale_id,
        sale,
        referral_id,
        passed_permission_check,
    ) == Ok::<(ContractView, SaleView, SubscriptionView), Error>((registered, sale, sub)));
    lemma_deposit_withdraw_round_trip(sale, in_amount);
    let grown = SaleView {
        total_shares: sale.total_shares + in_amount,
        in_token_remaining: sale.in_token_remaining + in_amount,
        ..sale
    };
    let joined = SubscriptionView {
        shares: sub.shares + in_amount,
        last_in_balance: sub.last_in_balance + in_amount,
        ..sub
    };
    assert(!AccountView::drops_subscription(grown, joined));
    let subscribed = holder.save_subscription(sale_id, grown, joined);
    lemma_with_entry(holder.subs, sale_id, joined);
    lemma_with_entry(registered.accounts, account_id, subscribed);
    lemma_save_subscription_balance(registered, account_id, sale_id, grown, joined, other_id, token_id);
    let deposited = registered.save_subscription(account_id, sale_id, grown, joined).with_sale(
        sale_id,
        grown,
    );
    assert(c.deposit_in_amount(
        sale_id,
        account_id,
        in_amount,
        referral_id,
        passed_permission_check,
        now,
        block_height,
    ).unwrap().0 == deposited);
    assert(deposited.ledgers_wf());
    // The withdrawal.
    assert(deposited.sales[sale_id as int] == grown);
    lemma_touch_early_is_noop(grown, later, later_block_height);
    assert(deposited.account(account_id) == Some(subscribed));
    assert(lookup(subscribed.subs, sale_id) == Some(joined));
    assert(subscribed.subscription_or_fresh(sale_id, grown, None) == joined);
    lemma_snapshot_earns_nothing(joined, grown);
    let touched = joined.touched(grown);
    assert(touched.shares == in_amount);
    assert(grown.shares_to_in_balance(in_amount) == in_amount);
    lemma_payment_balance(deposited, account_id, token, in_amount, other_id, token_id);
    lemma_credit_holds(deposited, account_id, token, in_amount, token_id);
    let credited = deposited.credit(account_id, token, in_amount).unwrap();
    let restored = subscribed.deposit(token, in_amount);
    lemma_with_entry(deposited.accounts, account_id, restored);
    assert(credited.account(account_id) == Some(restored));
    let left = sale_without_shares(grown, in_amount);
    assert(left == sale);
    let kept = SubscriptionView {
        shares: (touched.shares - in_amount) as nat,
        last_in_balance: left.shares_to_in_balance((touched.shares - in_amount) as nat),
        ..touched
    };
    let nothing = joined.earnings(grown);
    lemma_no_earnings_no_payment(credited, account_id, left, kept, nothing, nothing.len());
    assert(reclaim_dust(left, kept) == Ok::<(SaleView, SubscriptionView), Error>((left, kept)));
    lemma_save_subscription_balance(credited, account_id, sale_id, left, kept, other_id, token_id);
    let after = credited.save_subscription(account_id, sale_id, left, kept).with_sale(sale_id, left);
    assert(deposited.withdraw_in_token(
        sale_id,
        account_id,
        Withdrawal::Shares(None),
        later,
        later_block_height,
    ) == Ok::<ContractView, Error>(after));
    assert(after.sales =~= c.sales);
    assert(credited.balance(other_id, token_id) == c.balance(other_id, token_id));
    assert(after.balance(other_id, token_id) == credited.balance(other_id, token_id));
    assert(deposited.treasury == registered.treasury);
    assert(credited.treasury == deposited.treasury);
    assert(after.treasury == credited.treasury);
    assert(after.account(account_id) is Some);
}

/// The quotient of a division times the divisor misses the dividend by less
/// than the divisor.
pub proof fn lemma_floor_bounds(n: nat, d: nat)
    requires
        d > 0,
    ensures
        (n / d) * d <= n < (n / d) * d + d,
{
    vstd::arithmetic::div_mod::lemma_fundamental_div_mod(n as int, d as int);
    vstd::arithmetic::div_mod::lemma_mod_bound(n as int, d as int);
    assert((n / d) * d == d * (n / d)) by (nonlinear_arith);
}

/// Shares that leave a sale take their in-tokens with them and leave the
/// others theirs, up to one in-token of rounding either way: what the
/// shares that stay stand for afterwards and what the shares that left
/// stood for together are what all of them stood for before.
pub proof fn lemma_withdraw_rounding(sale: SaleView, held: nat, withdrawn: nat)
    requires
        sale.wf(),
        withdrawn <= held <= sale.total_shares,
    ensures
        ({
            let left = sale_without_shares(sale, withdrawn);
            let stays = left.shares_to_in_balance((held - withdrawn) as nat);
            let leaves = sale.shares_to_in_balance(withdrawn);
            let before = sale.shares_to_in_balance(held);
            before <= stays + leaves + 1 && stays + leaves <= before + 1
        }),
{
    let left = sale_without_shares(sale, withdrawn);
    let rest = (held - withdrawn) as nat;
    let stays = left.shares_to_in_balance(rest);
    let leaves = sale.shares_to_in_balance(withdrawn);
    let before = sale.shares_to_in_balance(held);
    let r = sale.in_token_remaining;
    let t = sale.total_shares;
    lemma_withdraw_wf(sale, withdrawn);
    if rest == 0 {
        assert(stays == 0);
    } else if withdrawn == 0 {
        assert(left == sale);
    } else {
        let t2 = (t - withdrawn) as nat;
        let r2 = (r - leaves) as nat;
        assert(t2 >= rest && t2 > 0);
        lemma_floor_bounds(r * withdrawn, t);
        lemma_floor_bounds(r * held, t);
        lemma_floor_bounds(r2 * rest, t2);
        assert(leaves == (r * withdrawn) / t);
        assert(before == (r * held) / t);
        assert(stays == (r2 * rest) / t2);
        assert(r * held == r * withdrawn + r * rest) by (nonlinear_arith)
            requires
                held == withdrawn + rest,
        ;
        // What is left per share has not shrunk, and has grown by less than one in-token.
        assert(r2 * t >= r * t2) by (nonlinear_arith)
            requires
                r2 == r - leaves,
                t2 == t - withdrawn,
                leaves * t <= r * withdrawn,
        ;
        assert(r2 * t <= r * t2 + t - 1) by (nonlinear_arith)
            requires
                r2 == r - leaves,
                t2 == t - withdrawn,
                r * withdrawn < leaves * t + t,
        ;
        // Lower bound.
        assert(before <= stays + leaves + 1) by {
            if before > stays + leaves + 1 {
                let k = (before - leaves - 1) as nat;
                assert(k >= stays + 1);
                assert(k * t + 1 <= r * rest) by (nonlinear_arith)
                    requires
                        k == before - leaves - 1,
                        before * t <= r * withdrawn + r * rest,
                        r * withdrawn < leaves * t + t,
                ;
                assert(r2 * rest * t >= k * t2 * t) by (nonlinear_arith)
                    requires
                        r2 * t >= r * t2,
                        k * t + 1 <= r * rest,
                        rest > 0,
                ;
                assert(r2 * rest >= k * t2) by (nonlinear_arith)
                    requires
                        r2 * rest * t >= k * t2 * t,
                        t > 0,
                ;
                assert(false) by (nonlinear_arith)
                    requires
                        r2 * rest >= k * t2,
                        r2 * rest < stays * t2 + t2,
                        k >= stays + 1,
                        t2 > 0,
                ;
            }
        }
        // Upper bound.
        assert(stays + leaves <= before + 1) by {
            if stays + leaves > before + 1 {
                let k = (before + 2 - leaves) as int;
                assert(stays >= k);
                assert(r * rest + 1 <= (k - 1) * t) by (nonlinear_arith)
                    requires
                        k == before + 2 - leaves,
                        r * withdrawn + r * rest < before * t + t,
                        leaves * t <= r * withdrawn,
                ;
                assert(r2 * rest * t <= r * t2 * rest + (t - 1) * rest) by (nonlinear_arith)
                    requires
                        r2 * t <= r * t2 + t - 1,
                        rest > 0,
                ;
                assert(r * t2 * rest + (t - 1) * rest < k * t * t2) by (nonlinear_arith)
                    requires
                        r * rest + 1 <= (k - 1) * t,
                        rest <= t2,
                        t2 > 0,
                        t > 0,
                ;
                assert(r2 * rest < k * t2) by (nonlinear_arith)
                    requires
                        r2 * rest * t < k * t * t2,
                        t > 0,
                ;
                assert(false) by (nonlinear_arith)
                    requires
                        stays * t2 <= r2 * rest,
                        r2 * rest < k * t2,
                        stays >= k,
                        t2 > 0,
                ;
            }
        }
    }
}

/// Paying out and reclaiming dust leave the in-tokens that a subscription
/// accounts for as they are.
pub proof fn lemma_settle_keeps_in_accounted(
    c: ContractView,
    account_id: Seq<char>,
    sale: SaleView,
    sub: SubscriptionView,
    earned: Seq<nat>,
)
    requires
        earned.len() <= sub.claimed_out_balance.len(),
        c.settle_subscription(account_id, sale, sub, earned) is Ok,
    ensures
        ({
            let settled = c.settle_subscription(account_id, sale, sub, earned).unwrap().2;
            &&& settled.spent_in_balance_without_shares == sub.spent_in_balance_without_shares
            &&& settled.last_in_balance == sub.last_in_balance
            &&& settled.shares <= sub.shares
            &&& settled.shares == sub.shares || settled.shares == 0
        }),
{
    lemma_pay_outs_claimed(c, account_id, sale, sub, earned, earned.len());
}

/// A deposit adds what is pledged to the in-tokens that the subscription
/// accounts for: after it, what the subscription has spent and what its
/// shares stand for are what they were at its touch, and the pledge. So
/// every in-token ever pledged is spent or still there.
pub proof fn lemma_deposit_accounts_for_in_tokens(
    c: ContractView,
    sale_id: nat,
    account_id: Seq<char>,
    in_amount: nat,
    referral_id: Option<Seq<char>>,
    passed_permission_check: bool,
    now: nat,
    block_height: nat,
)
    requires
        c.ledgers_wf(),
        sale_id < c.sales.len(),
        c.sales[sale_id as int].wf(),
        c.account(account_id) is Some,
        distinct_keys(c.account(account_id).unwrap().subs),
        c.account(account_id).unwrap().subscription_or_fresh(
            sale_id,
            c.sales[sale_id as int].touch(now, block_height),
            referral_id,
        ).wf(),
        in_amount <= u128::MAX,
        c.deposit_in_amount(
            sale_id,
            account_id,
            in_amount,
            referral_id,
            passed_permission_check,
            now,
            block_height,
        ) is Ok,
        c.deposit_in_amount(
            sale_id,
            account_id,
            in_amount,
            referral_id,
            passed_permission_check,
            now,
            block_height,
        ).unwrap().1 is None,
    ensures
        ({
            let after = c.deposit_in_amount(
                sale_id,
                account_id,
                in_amount,
                referral_id,
                passed_permission_check,
                now,
                block_height,
            ).unwrap().0;
            let touched = c.sales[sale_id as int].touch(now, block_height);
            let before = c.account(account_id).unwrap().subscription_or_fresh(
                sale_id,
                touched,
                referral_id,
            );
            let saved = lookup(after.account(account_id).unwrap().subs, sale_id);
            &&& after.account(account_id) is Some
            &&& in_amount > 0 ==> saved is Some
            &&& saved is Some ==> saved.unwrap().in_accounted() == before.touched(
                touched,
            ).in_accounted() + in_amount && saved.unwrap().in_accounted() >= before.in_accounted()
                + in_amount
        }),
{
    let touched = c.sales[sale_id as int].touch(now, block_height);
    lemma_touch_conserves(c.sales[sale_id as int], now, block_height);
    let account = c.account(account_id).unwrap();
    let token = touched.in_token_account_id;
    let pools = touched.out_tokens;
    lemma_account_ledger(c, account_id);
    let lowered = account.withdraw(token, in_amount);
    lemma_with_entry(
        account.balances,
        token,
        (account.balance_of(token).unwrap() - in_amount) as nat,
    );
    lemma_with_entry(c.accounts, account_id, lowered);
    lemma_debit_holds(c, account_id, token, in_amount, token);
    let debited = c.debit(account_id, token, in_amount).unwrap();
    assert(debited.account(account_id) == Some(lowered));
    lemma_register_pools_frame(debited, account_id, pools, pools.len());
    let registered = debited.register_pools(account_id, pools, pools.len());
    let before = account.subscription_or_fresh(sale_id, touched, referral_id);
    assert(registered.account(account_id).unwrap().subscription_or_fresh(
        sale_id,
        touched,
        referral_id,
    ) == before);
    let earned = before.earnings(touched);
    lemma_touch_accounts_for_in_tokens(before, touched);
    lemma_settle_keeps_in_accounted(registered, account_id, touched, before.touched(touched), earned);
    lemma_pay_outs_subs(registered, account_id, touched, before.touched(touched), earned, earned.len());
    let (c1, swept, sub) = registered.update_subscription(
        account_id,
        sale_id,
        touched,
        referral_id,
        passed_permission_check,
    ).unwrap();
    let holder = c1.account(account_id).unwrap();
    assert(holder.subs == account.subs);
    lemma_deposit_shares(touched, in_amount);
    let new_shares = touched.in_amount_to_shares(in_amount, false).unwrap();
    let grown = SaleView {
        total_shares: swept.total_shares + new_shares,
        in_token_remaining: swept.in_token_remaining + in_amount,
        ..swept
    };
    let joined = SubscriptionView {
        shares: sub.shares + new_shares,
        last_in_balance: sub.last_in_balance + in_amount,
        ..sub
    };
    let saved_account = holder.save_subscription(sale_id, grown, joined);
    lemma_with_entry(holder.subs, sale_id, joined);
    lemma_without_key(holder.subs, sale_id);
    lemma_with_entry(c1.accounts, account_id, saved_account);
    let after = c1.save_subscription(account_id, sale_id, grown, joined).with_sale(sale_id, grown);
    assert(after.account(account_id) == Some(saved_account));
}

/// A withdrawal takes from the in-tokens that the subscription accounts for
/// what it returns, up to one in-token of rounding: what was spent stays
/// spent, and what the remaining shares stand for afterwards, with what was
/// returned, is what all the shares stood for at the touch, give or take
/// one.
pub proof fn lemma_withdraw_accounts_for_in_tokens(
    c: ContractView,
    sale_id: nat,
    account_id: Seq<char>,
    request: Withdrawal,
    now: nat,
    block_height: nat,
)
    requires
        c.ledgers_wf(),
        sale_id < c.sales.len(),
        c.sales[sale_id as int].wf(),
        c.account(account_id) is Some,
        distinct_keys(c.account(account_id).unwrap().subs),
        c.account(account_id).unwrap().subscription_or_fresh(
            sale_id,
            c.sales[sale_id as int].touch(now, block_height),
            None,
        ).wf(),
        c.account(account_id).unwrap().subscription_or_fresh(
            sale_id,
            c.sales[sale_id as int].touch(now, block_height),
            None,
        ).shares <= c.sales[sale_id as int].total_shares,
        c.withdraw_in_token(sale_id, account_id, request, now, block_height) is Ok,
    ensures
        ({
            let after = c.withdraw_in_token(sale_id, account_id, request, now, block_height).unwrap();
            let touched = c.sales[sale_id as int].touch(now, block_height);
            let sub = c.account(account_id).unwrap().subscription_or_fresh(
                sale_id,
                touched,
                None,
            ).touched(touched);
            let shares = requested_shares(touched, sub, request).unwrap();
            let returned = touched.shares_to_in_balance(shares);
            let saved = lookup(after.account(account_id).unwrap().subs, sale_id);
            &&& after.account(account_id) is Some
            &&& saved is Some ==> {
                &&& saved.unwrap().spent_in_balance_without_shares
                    == sub.spent_in_balance_without_shares
                &&& saved.unwrap().last_in_balance == sale_without_shares(
                    touched,
                    shares,
                ).shares_to_in_balance((sub.shares - shares) as nat)
                &&& sub.in_accounted() <= saved.unwrap().in_accounted() + returned + 1
                &&& saved.unwrap().in_accounted() + returned <= sub.in_accounted() + 1
            }
        }),
{
    let touched = c.sales[sale_id as int].touch(now, block_height);
    lemma_touch_conserves(c.sales[sale_id as int], now, block_height);
    let account = c.account(account_id).unwrap();
    let token = touched.in_token_account_id;
    let before = account.subscription_or_fresh(sale_id, touched, None);
    let sub = before.touched(touched);
    let earned = before.earnings(touched);
    let shares = requested_shares(touched, sub, request).unwrap();
    let returned = touched.shares_to_in_balance(shares);
    lemma_touch_accounts_for_in_tokens(before, touched);
    lemma_withdraw_wf(touched, shares);
    lemma_withdraw_rounding(touched, sub.shares, shares);
    lemma_account_ledger(c, account_id);
    let raised = account.deposit(token, returned);
    lemma_with_entry(account.balances, token, account.balance_of(token).unwrap() + returned);
    lemma_with_entry(c.accounts, account_id, raised);
    lemma_credit_holds(c, account_id, token, returned, token);
    let credited = c.credit(account_id, token, returned).unwrap();
    assert(credited.account(account_id) == Some(raised));
    let left = sale_without_shares(touched, shares);
    let kept = SubscriptionView {
        shares: (sub.shares - shares) as nat,
        last_in_balance: left.shares_to_in_balance((sub.shares - shares) as nat),
        ..sub
    };
    lemma_settle_keeps_in_accounted(credited, account_id, left, kept, earned);
    lemma_pay_outs_subs(credited, account_id, left, kept, earned, earned.len());
    let (c1, swept, cleared) = credited.settle_subscription(account_id, left, kept, earned).unwrap();
    let holder = c1.account(account_id).unwrap();
    assert(holder.subs == account.subs);
    let saved_account = holder.save_subscription(sale_id, swept, cleared);
    lemma_with_entry(holder.subs, sale_id, cleared);
    lemma_without_key(holder.subs, sale_id);
    lemma_with_entry(c1.accounts, account_id, saved_account);
    let after = c1.save_subscription(account_id, sale_id, swept, cleared).with_sale(sale_id, swept);
    assert(after.account(account_id) == Some(saved_account));
}

} // verus!

//! An account: its token balances, its subscriptions and the sales it owns.

use crate::assoc::{
    distinct_keys, has_key, key_index, lemma_key_absent, lemma_key_found, lemma_with_entry,
    lemma_without_key, lookup, with_entry, without_key,
};
use crate::balances::TokenBalances;
use crate::errors::Error;
use crate::sale::{name_view, Sale, SaleView};
use crate::sub::{
    amounts_view, copy_amounts, copy_text, Subscription, SubscriptionOutput,
    SubscriptionOutputView, SubscriptionView,
};
use vstd::prelude::*;

verus! {

/// The mathematical value of an account.
pub ghost struct AccountView {
    pub balances: Seq<(Seq<char>, nat)>,
    pub subs: Seq<(nat, SubscriptionView)>,
    pub sales: Seq<nat>,
}

/// The subscriptions of an account by sale, in the order in which they were
/// taken out (a removal moves the last one into the gap).
#[derive(Debug)]
pub struct Subscriptions {
    pub sale_ids: Vec<u64>,
    pub subs: Vec<Subscription>,
}

impl View for Subscriptions {
    type V = Seq<(nat, SubscriptionView)>;

    open spec fn view(&self) -> Seq<(nat, SubscriptionView)> {
        Seq::new(self.sale_ids.len() as nat, |i: int| (self.sale_ids[i] as nat, self.subs[i]@))
    }
}

/// The first place in `ids` at which `id` stands.
pub fn find_id(ids: &Vec<u64>, id: u64) -> (r: Option<usize>)
    ensures
        match r {
            Some(i) => i < ids.len() && ids[i as int] == id && forall|j: int|
                0 <= j < i ==> (#[trigger] ids[j]) != id,
            None => forall|j: int| 0 <= j < ids.len() ==> (#[trigger] ids[j]) != id,
        },
{
    let mut i: usize = 0;
    while i < ids.len()
        invariant
            i <= ids.len(),
            forall|j: int| 0 <= j < i ==> (#[trigger] ids[j]) != id,
        decreases ids.len() - i,
    {
        if ids[i] == id {
            return Some(i);
        }
        i += 1;
    }
    None
}

/// Whether no id stands twice in `ids`.
pub fn distinct_ids(ids: &Vec<u64>) -> (r: bool)
    ensures
        r == forall|i: int, j: int| 0 <= i < j < ids.len() ==> (#[trigger] ids[i]) != (#[trigger] ids[j]),
{
    let n = ids.len();
    let mut j: usize = 0;
    while j < n
        invariant
            j <= n,
            n == ids.len(),
            forall|a: int, b: int| 0 <= a < b < j ==> (#[trigger] ids[a]) != (#[trigger] ids[b]),
        decreases n - j,
    {
        let mut i: usize = 0;
        while i < j
            invariant
                i <= j < n,
                n == ids.len(),
                forall|a: int| 0 <= a < i ==> (#[trigger] ids[a]) != ids[j as int],
            decreases j - i,
        {
            if ids[i] == ids[j] {
                return false;
            }
            i += 1;
        }
        j += 1;
    }
    true
}

/// A copy of a vector of ids.
pub fn copy_ids(ids: &Vec<u64>) -> (r: Vec<u64>)
    ensures
        r@ == ids@,
{
    let mut r: Vec<u64> = Vec::new();
    let mut i: usize = 0;
    while i < ids.len()
        invariant
            i <= ids.len(),
            r@ == ids@.subrange(0, i as int),
        decreases ids.len() - i,
    {
        r.push(ids[i]);
        assert(r@ =~= ids@.subrange(0, i + 1));
        i += 1;
    }
    assert(r@ =~= ids@);
    r
}

impl Subscriptions {
    /// A copy of these subscriptions.
    pub fn duplicate(&self) -> (r: Self)
        requires
            self.wf(),
        ensures
            r@ == self@,
            r.wf(),
    {
        let mut subs: Vec<Subscription> = Vec::new();
        let mut i: usize = 0;
        while i < self.subs.len()
            invariant
                i <= self.subs.len(),
                subs.len() == i,
                forall|j: int| 0 <= j < i ==> (#[trigger] subs[j])@ == self.subs[j]@,
            decreases self.subs.len() - i,
        {
            subs.push(self.subs[i].duplicate());
            i += 1;
        }
        let r = Subscriptions { sale_ids: copy_ids(&self.sale_ids), subs };
        assert(r@ =~= self@);
        assert forall|j: int| 0 <= j < r.subs.len() implies (#[trigger] r.subs[j])@.wf() by {
            assert(self.subs[j]@.wf());
        }
        r
    }

    /// Whether these subscriptions are well formed.
    pub fn is_wf(&self) -> (r: bool)
        ensures
            r == self.wf(),
    {
        if self.sale_ids.len() != self.subs.len() {
            return false;
        }
        let distinct = distinct_ids(&self.sale_ids);
        proof {
            if distinct {
                assert forall|i: int, j: int| 0 <= i < j < self@.len() implies (#[trigger] self@[i]).0
                    != (#[trigger] self@[j]).0 by {
                    assert(self.sale_ids[i] != self.sale_ids[j]);
                }
            } else {
                let (i, j) = choose|i: int, j: int|
                    0 <= i < j < self.sale_ids.len() && (#[trigger] self.sale_ids[i]) == (
                    #[trigger] self.sale_ids[j]);
                assert(self@[i].0 == self@[j].0);
            }
        }
        if !distinct {
            return false;
        }
        let mut i: usize = 0;
        while i < self.subs.len()
            invariant
                i <= self.subs.len(),
                forall|j: int| 0 <= j < i ==> (#[trigger] self.subs[j])@.wf(),
            decreases self.subs.len() - i,
        {
            if !self.subs[i].is_wf() {
                return false;
            }
            i += 1;
        }
        true
    }

    /// Every sale has one subscription, stands once, and its subscription is
    /// well formed.
    pub open spec fn wf(&self) -> bool {
        &&& self.sale_ids.len() == self.subs.len()
        &&& distinct_keys(self@)
        &&& forall|i: int| 0 <= i < self.subs.len() ==> (#[trigger] self.subs[i])@.wf()
    }

    /// No subscriptions.
    pub fn new() -> (r: Self)
        ensures
            r@ == Seq::<(nat, SubscriptionView)>::empty(),
            r.wf(),
    {
        let r = Subscriptions { sale_ids: Vec::new(), subs: Vec::new() };
        assert(r@ =~= Seq::<(nat, SubscriptionView)>::empty());
        r
    }

    /// The place of the subscription to `sale_id`.
    pub fn find(&self, sale_id: u64) -> (r: Option<usize>)
        requires
            self.wf(),
        ensures
            match r {
                Some(i) => i < self@.len() && has_key(self@, sale_id as nat) && key_index(
                    self@,
                    sale_id as nat,
                ) == i,
                None => !has_key(self@, sale_id as nat),
            },
    {
        let r = find_id(&self.sale_ids, sale_id);
        proof {
            match r {
                Some(i) => {
                    assert(self@[i as int].0 == sale_id as nat);
                    lemma_key_found(self@, sale_id as nat, i as int);
                },
                None => {
                    assert forall|j: int| 0 <= j < self@.len() implies (#[trigger] self@[j]).0
                        != sale_id as nat by {
                        assert(self.sale_ids[j] != sale_id);
                    }
                    lemma_key_absent(self@, sale_id as nat);
                },
            }
        }
        r
    }

    /// Stores `subscription` under `sale_id`, in place of an earlier one or
    /// at the end.
    pub fn insert(&mut self, sale_id: u64, subscription: Subscription)
        requires
            old(self).wf(),
            subscription@.wf(),
        ensures
            final(self)@ == with_entry(old(self)@, sale_id as nat, subscription@),
            final(self).wf(),
    {
        proof {
            lemma_with_entry(self@, sale_id as nat, subscription@);
        }
        match self.find(sale_id) {
            Some(i) => {
                self.subs[i] = subscription;
                assert(self@ =~= with_entry(old(self)@, sale_id as nat, subscription@));
            },
            None => {
                self.sale_ids.push(sale_id);
                self.subs.push(subscription);
                assert(self@ =~= with_entry(old(self)@, sale_id as nat, subscription@));
            },
        }
    }

    /// Removes the subscription to `sale_id`, if there is one.
    pub fn remove(&mut self, sale_id: u64)
        requires
            old(self).wf(),
        ensures
            final(self)@ == without_key(old(self)@, sale_id as nat),
            final(self).wf(),
    {
        proof {
            lemma_without_key(self@, sale_id as nat);
        }
        match self.find(sale_id) {
            Some(i) => {
                self.sale_ids.swap_remove(i);
                self.subs.swap_remove(i);
                assert(self@ =~= without_key(old(self)@, sale_id as nat));
            },
            None => {},
        }
    }
}

impl AccountView {
    /// The balance of `token_id`, if the token is registered.
    pub open spec fn balance_of(self, token_id: Seq<char>) -> Option<nat> {
        lookup(self.balances, token_id)
    }

    /// The account can take `amount` of `token_id`: the token is registered
    /// and the balance stays within 128 bits.
    pub open spec fn deposit_result(self, token_id: Seq<char>, amount: nat) -> Result<(), Error> {
        match self.balance_of(token_id) {
            None => Err(Error::TokenNotRegistered),
            Some(balance) => if balance + amount > u128::MAX {
                Err(Error::BalanceOverflow)
            } else {
                Ok(())
            },
        }
    }

    /// The account can give `amount` of `token_id`: the token is registered
    /// and the balance covers the amount.
    pub open spec fn withdraw_result(self, token_id: Seq<char>, amount: nat) -> Result<(), Error> {
        match self.balance_of(token_id) {
            None => Err(Error::TokenNotRegistered),
            Some(balance) => if balance < amount {
                Err(Error::NotEnoughBalance)
            } else {
                Ok(())
            },
        }
    }

    /// The account with the balance of `token_id` set to `balance`.
    pub open spec fn with_balance(self, token_id: Seq<char>, balance: nat) -> AccountView {
        AccountView { balances: with_entry(self.balances, token_id, balance), ..self }
    }

    /// The account with `amount` more of a registered token.
    pub open spec fn deposit(self, token_id: Seq<char>, amount: nat) -> AccountView {
        self.with_balance(token_id, self.balance_of(token_id).unwrap() + amount)
    }

    /// The account with `amount` less of a registered token.
    pub open spec fn withdraw(self, token_id: Seq<char>, amount: nat) -> AccountView {
        self.with_balance(token_id, (self.balance_of(token_id).unwrap() - amount) as nat)
    }

    /// The subscription to `sale_id` as it would enter an operation: the
    /// stored one, or a fresh one where none is stored.
    pub open spec fn subscription_or_fresh(
        self,
        sale_id: nat,
        sale: SaleView,
        referral_id: Option<Seq<char>>,
    ) -> SubscriptionView {
        match lookup(self.subs, sale_id) {
            Some(subscription) => subscription,
            None => SubscriptionView::fresh(sale, referral_id),
        }
    }

    /// The outcome of fetching the subscription to `sale_id` for an
    /// operation: refused where none is stored and none may be created, or
    /// where its touch leaves the machine's numbers.
    pub open spec fn get_subscription_result(
        self,
        sale_id: nat,
        sale: SaleView,
        referral_id: Option<Seq<char>>,
        create_new: bool,
    ) -> Result<(), Error> {
        if lookup(self.subs, sale_id) is None && !create_new {
            Err(Error::NoPermission)
        } else if !self.subscription_or_fresh(sale_id, sale, referral_id).can_touch(sale) {
            Err(Error::BalanceOverflow)
        } else {
            Ok(())
        }
    }

    /// A subscription without shares is dropped once it cannot come back
    /// without a new admission: the sale is not gated, or it has ended.
    pub open spec fn drops_subscription(sale: SaleView, subscription: SubscriptionView) -> bool {
        subscription.shares == 0 && (sale.permissions_contract_id is None || sale.has_ended())
    }

    /// The account after saving `subscription` for `sale_id`.
    pub open spec fn save_subscription(
        self,
        sale_id: nat,
        sale: SaleView,
        subscription: SubscriptionView,
    ) -> AccountView {
        if Self::drops_subscription(sale, subscription) {
            AccountView { subs: without_key(self.subs, sale_id), ..self }
        } else {
            AccountView { subs: with_entry(self.subs, sale_id, subscription), ..self }
        }
    }

    /// What the account's owner sees of the subscription to `sale_id`, where
    /// there is anything to see: shares, or earnings not yet claimed.
    pub open spec fn subscription_output(self, sale_id: nat, sale: SaleView) -> Option<
        SubscriptionOutputView,
    > {
        let before = self.subscription_or_fresh(sale_id, sale, None);
        let after = before.touched(sale);
        let earnings = before.earnings(sale);
        if after.shares > 0 || exists|i: int| 0 <= i < earnings.len() && #[trigger] earnings[i] > 0 {
            Some(
                SubscriptionOutputView {
                    remaining_in_balance: sale.shares_to_in_balance(after.shares),
                    spent_in_balance: after.spent_in_balance_without_shares,
                    unclaimed_out_balances: earnings,
                    claimed_out_balance: after.claimed_out_balance,
                    shares: after.shares,
                    referral_id: after.referral_id,
                },
            )
        } else {
            None
        }
    }
}

/// A set of sale ids with `sale_id` in it.
pub open spec fn with_sale_id(sales: Seq<nat>, sale_id: nat) -> Seq<nat> {
    if sales.contains(sale_id) {
        sales
    } else {
        sales.push(sale_id)
    }
}

/// An account.
#[derive(Debug)]
pub struct Account {
    pub balances: TokenBalances,
    pub subs: Subscriptions,
    /// The sales that the account owns.
    pub sales: Vec<u64>,
}

impl View for Account {
    type V = AccountView;

    open spec fn view(&self) -> AccountView {
        AccountView {
            balances: self.balances@,
            subs: self.subs@,
            sales: self.sales@.map_values(|id: u64| id as nat),
        }
    }
}

/// Whether any of `amounts` is positive.
pub fn any_positive(amounts: &Vec<u128>) -> (r: bool)
    ensures
        r == exists|i: int| 0 <= i < amounts.len() && #[trigger] amounts[i] > 0,
{
    let mut i: usize = 0;
    while i < amounts.len()
        invariant
            i <= amounts.len(),
            forall|j: int| 0 <= j < i ==> (#[trigger] amounts[j]) == 0,
        decreases amounts.len() - i,
    {
        if amounts[i] > 0 {
            return true;
        }
        i += 1;
    }
    false
}

impl Account {
    /// A copy of this account.
    pub fn duplicate(&self) -> (r: Self)
        requires
            self.wf(),
        ensures
            r@ == self@,
            r.wf(),
    {
        Account {
            balances: self.balances.duplicate(),
            subs: self.subs.duplicate(),
            sales: copy_ids(&self.sales),
        }
    }

    /// Whether this account is well formed.
    pub fn is_wf(&self) -> (r: bool)
        ensures
            r == self.wf(),
    {
        if !self.balances.is_wf() || !self.subs.is_wf() {
            return false;
        }
        let distinct = distinct_ids(&self.sales);
        proof {
            if !distinct {
                let (i, j) = choose|i: int, j: int|
                    0 <= i < j < self.sales.len() && (#[trigger] self.sales[i]) == (
                    #[trigger] self.sales[j]);
                assert(self.sales@[i] == self.sales@[j]);
            }
        }
        distinct
    }

    /// The ledgers are well formed and no owned sale stands twice.
    pub open spec fn wf(&self) -> bool {
        &&& self.balances.wf()
        &&& self.subs.wf()
        &&& self.sales@.no_duplicates()
    }

    /// An account without tokens, subscriptions or sales.
    pub fn new() -> (r: Self)
        ensures
            r.wf(),
            r@ == (AccountView { balances: Seq::empty(), subs: Seq::empty(), sales: Seq::empty() }),
    {
        let r = Account { balances: TokenBalances::new(), subs: Subscriptions::new(), sales: Vec::new() };
        assert(r@.sales =~= Seq::<nat>::empty());
        r
    }

    /// Adds `sale_id` to the sales that the account owns.
    pub fn internal_add_sale(&mut self, sale_id: u64)
        requires
            old(self).wf(),
        ensures
            final(self)@ == (AccountView {
                sales: with_sale_id(old(self)@.sales, sale_id as nat),
                ..old(self)@
            }),
            final(self).wf(),
    {
        let found = find_id(&self.sales, sale_id);
        proof {
            let ids = old(self)@.sales;
            if found is Some {
                assert(ids[found.unwrap() as int] == sale_id as nat);
            } else {
                assert forall|j: int| 0 <= j < ids.len() implies ids[j] != sale_id as nat by {
                    assert(self.sales[j] != sale_id);
                }
            }
        }
        if found.is_none() {
            self.sales.push(sale_id);
            proof {
                assert(self@.sales =~= old(self)@.sales.push(sale_id as nat));
            }
        }
    }

    /// Credits `amount` of a registered token. Nothing changes where the
    /// token is not registered or the balance would leave 128 bits.
    pub fn internal_token_deposit(&mut self, token_account_id: &String, amount: u128) -> (r: Result<
        (),
        Error,
    >)
        requires
            old(self).wf(),
        ensures
            r == old(self)@.deposit_result(token_account_id@, amount as nat),
            r is Ok ==> final(self)@ == old(self)@.deposit(token_account_id@, amount as nat),
            r is Err ==> final(self)@ == old(self)@,
            final(self).wf(),
    {
        match self.balances.get(token_account_id) {
            None => Err(Error::TokenNotRegistered),
            Some(balance) => {
                if amount > u128::MAX - balance {
                    Err(Error::BalanceOverflow)
                } else {
                    self.balances.insert(token_account_id, balance + amount);
                    Ok(())
                }
            },
        }
    }

    /// Debits `amount` of a registered token. Nothing changes where the
    /// token is not registered or the balance does not cover the amount.
    pub fn internal_token_withdraw(&mut self, token_account_id: &String, amount: u128) -> (r:
        Result<(), Error>)
        requires
            old(self).wf(),
        ensures
            r == old(self)@.withdraw_result(token_account_id@, amount as nat),
            r is Ok ==> final(self)@ == old(self)@.withdraw(token_account_id@, amount as nat),
            r is Err ==> final(self)@ == old(self)@,
            final(self).wf(),
    {
        match self.balances.get(token_account_id) {
            None => Err(Error::TokenNotRegistered),
            Some(balance) => {
                if amount > balance {
                    Err(Error::NotEnoughBalance)
                } else {
                    self.balances.insert(token_account_id, balance - amount);
                    Ok(())
                }
            },
        }
    }

    /// Fetches the subscription to `sale_id` for an operation and touches
    /// it: the stored one, or a fresh one if `create_new` allows it. Returns
    /// the touched subscription with what it has earned of each out-token.
    pub fn internal_get_subscription(
        &self,
        sale_id: u64,
        sale: &Sale,
        referral_id: Option<&String>,
        create_new: bool,
    ) -> (r: Result<(Subscription, Vec<u128>), Error>)
        requires
            self.wf(),
            sale@.wf(),
        ensures
            match r {
                Ok((subscription, earned)) => {
                    let before = self@.subscription_or_fresh(
                        sale_id as nat,
                        sale@,
                        name_view(referral_id),
                    );
                    &&& self@.get_subscription_result(
                        sale_id as nat,
                        sale@,
                        name_view(referral_id),
                        create_new,
                    ) is Ok
                    &&& subscription@ == before.touched(sale@)
                    &&& amounts_view(earned@) == before.earnings(sale@)
                    &&& subscription@.wf()
                },
                Err(e) => self@.get_subscription_result(
                    sale_id as nat,
                    sale@,
                    name_view(referral_id),
                    create_new,
                ) == Err::<(), Error>(e),
            },
    {
        let mut subscription = match self.subs.find(sale_id) {
            Some(i) => self.subs.subs[i].duplicate(),
            None => {
                if create_new {
                    let referral = match referral_id {
                        Some(id) => Some(id.clone()),
                        None => None,
                    };
                    Subscription::new(sale, referral)
                } else {
                    return Err(Error::NoPermission);
                }
            },
        };
        match subscription.touch(sale) {
            Ok(earned) => Ok((subscription, earned)),
            Err(e) => Err(e),
        }
    }

    /// Stores `subscription` for `sale_id`, or drops it where it holds no
    /// shares and the sale is not gated or has ended.
    pub fn internal_save_subscription(&mut self, sale_id: u64, sale: &Sale, subscription: Subscription)
        requires
            old(self).wf(),
            subscription@.wf(),
        ensures
            final(self)@ == old(self)@.save_subscription(sale_id as nat, sale@, subscription@),
            final(self).wf(),
    {
        if subscription.shares == 0 && (sale.permissions_contract_id.is_none() || sale.has_ended()) {
            self.subs.remove(sale_id);
        } else {
            self.subs.insert(sale_id, subscription);
        }
    }

    /// What the account's owner sees of the subscription to `sale_id`:
    /// `Ok(None)` where there are neither shares nor earnings to claim.
    pub fn internal_subscription_output(&self, sale_id: u64, sale: &Sale) -> (r: Result<
        Option<SubscriptionOutput>,
        Error,
    >)
        requires
            self.wf(),
            sale@.wf(),
        ensures
            match r {
                Ok(Some(output)) => {
                    &&& self@.get_subscription_result(sale_id as nat, sale@, None, true) is Ok
                    &&& self@.subscription_output(sale_id as nat, sale@) == Some(output@)
                },
                Ok(None) => {
                    &&& self@.get_subscription_result(sale_id as nat, sale@, None, true) is Ok
                    &&& self@.subscription_output(sale_id as nat, sale@) is None
                },
                Err(e) => self@.get_subscription_result(sale_id as nat, sale@, None, true) == Err::<
                    (),
                    Error,
                >(e),
            },
    {
        let (subscription, earned) = match self.internal_get_subscription(sale_id, sale, None, true) {
            Ok(pair) => pair,
            Err(e) => { return Err(e); },
        };
        let ghost earnings = self@.subscription_or_fresh(sale_id as nat, sale@, None).earnings(sale@);
        let positive = any_positive(&earned);
        proof {
            assert(amounts_view(earned@) == earnings);
            assert(positive == exists|i: int| 0 <= i < earnings.len() && #[trigger] earnings[i] > 0)
                by {
                if positive {
                    let i = choose|i: int| 0 <= i < earned.len() && #[trigger] earned[i] > 0;
                    assert(earnings[i] == earned[i] as nat);
                } else {
                    if exists|i: int| 0 <= i < earnings.len() && #[trigger] earnings[i] > 0 {
                        let i = choose|i: int| 0 <= i < earnings.len() && #[trigger] earnings[i] > 0;
                        assert(amounts_view(earned@)[i] == earned[i] as nat);
                        assert(earned[i] > 0);
                    }
                }
            }
        }
        if subscription.shares > 0 || positive {
            let remaining_in_balance = sale.shares_to_in_balance(subscription.shares);
            Ok(
                Some(
                    SubscriptionOutput {
                        remaining_in_balance,
                        spent_in_balance: subscription.spent_in_balance_without_shares + (
                        subscription.last_in_balance - remaining_in_balance),
                        unclaimed_out_balances: earned,
                        claimed_out_balance: copy_amounts(&subscription.claimed_out_balance),
                        shares: subscription.shares,
                        referral_id: copy_text(&subscription.referral_id),
                    },
                ),
            )
        } else {
            Ok(None)
        }
    }
}

} // verus!

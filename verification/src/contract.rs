//! The engine: accounts, sales and the treasury, and the payments between
//! them that every operation is made of.
//!
//! Every operation is given the clock and the identities it needs as plain
//! values. An operation that is refused leaves the engine as it was.

use crate::account::{Account, AccountView};
use crate::assoc::{
    distinct_keys, has_key, key_index, lemma_key_absent, lemma_key_found, lemma_with_entry,
    lookup, with_entry,
};
use crate::balances::{copy_names, distinct_names, find_name};
use crate::errors::Error;
use crate::sale::{Sale, SaleView};
use crate::sub::{Subscription, SubscriptionView};
use crate::treasury::{total_vested, Treasury, TreasuryView, VestingInterval};
use vstd::prelude::*;

verus! {

/// The accounts of the engine by account id.
#[derive(Debug)]
pub struct Accounts {
    pub account_ids: Vec<String>,
    pub accounts: Vec<Account>,
}

impl View for Accounts {
    type V = Seq<(Seq<char>, AccountView)>;

    open spec fn view(&self) -> Seq<(Seq<char>, AccountView)> {
        Seq::new(self.account_ids.len() as nat, |i: int| (self.account_ids[i]@, self.accounts[i]@))
    }
}

impl Accounts {
    /// Every id has one account, stands once, and its account is well formed.
    pub open spec fn wf(&self) -> bool {
        &&& self.account_ids.len() == self.accounts.len()
        &&& distinct_keys(self@)
        &&& forall|i: int| 0 <= i < self.accounts.len() ==> (#[trigger] self.accounts[i]).wf()
    }

    /// Whether these accounts are well formed.
    pub fn is_wf(&self) -> (r: bool)
        ensures
            r == self.wf(),
    {
        if self.account_ids.len() != self.accounts.len() {
            return false;
        }
        let distinct = distinct_names(&self.account_ids);
        proof {
            if distinct {
                assert forall|i: int, j: int| 0 <= i < j < self@.len() implies (#[trigger] self@[i]).0
                    != (#[trigger] self@[j]).0 by {
                    assert(self.account_ids[i]@ != self.account_ids[j]@);
                }
            } else {
                let (i, j) = choose|i: int, j: int|
                    0 <= i < j < self.account_ids.len() && (#[trigger] self.account_ids[i])@ == (
                    #[trigger] self.account_ids[j])@;
                assert(self@[i].0 == self@[j].0);
            }
        }
        if !distinct {
            return false;
        }
        let mut i: usize = 0;
        while i < self.accounts.len()
            invariant
                i <= self.accounts.len(),
                forall|j: int| 0 <= j < i ==> (#[trigger] self.accounts[j]).wf(),
            decreases self.accounts.len() - i,
        {
            if !self.accounts[i].is_wf() {
                return false;
            }
            i += 1;
        }
        true
    }

    /// A copy of these accounts.
    pub fn duplicate(&self) -> (r: Self)
        requires
            self.wf(),
        ensures
            r@ == self@,
            r.wf(),
    {
        let mut accounts: Vec<Account> = Vec::new();
        let mut i: usize = 0;
        while i < self.accounts.len()
            invariant
                i <= self.accounts.len(),
                accounts.len() == i,
                forall|j: int| 0 <= j < self.accounts.len() ==> (#[trigger] self.accounts[j]).wf(),
                forall|j: int| 0 <= j < i ==> (#[trigger] accounts[j])@ == self.accounts[j]@,
                forall|j: int| 0 <= j < i ==> (#[trigger] accounts[j]).wf(),
            decreases self.accounts.len() - i,
        {
            accounts.push(self.accounts[i].duplicate());
            i += 1;
        }
        let r = Accounts { account_ids: copy_names(&self.account_ids), accounts };
        assert(r@ =~= self@);
        r
    }

    /// No accounts.
    pub fn new() -> (r: Self)
        ensures
            r@ == Seq::<(Seq<char>, AccountView)>::empty(),
            r.wf(),
    {
        let r = Accounts { account_ids: Vec::new(), accounts: Vec::new() };
        assert(r@ =~= Seq::<(Seq<char>, AccountView)>::empty());
        r
    }

    /// The place of the account `account_id`.
    pub fn find(&self, account_id: &String) -> (r: Option<usize>)
        requires
            self.wf(),
        ensures
            match r {
                Some(i) => i < self@.len() && has_key(self@, account_id@) && key_index(
                    self@,
                    account_id@,
                ) == i,
                None => !has_key(self@, account_id@),
            },
    {
        let r = find_name(&self.account_ids, account_id);
        proof {
            match r {
                Some(i) => {
                    assert(self@[i as int].0 == account_id@);
                    lemma_key_found(self@, account_id@, i as int);
                },
                None => {
                    assert forall|j: int| 0 <= j < self@.len() implies (#[trigger] self@[j]).0
                        != account_id@ by {
                        assert(self.account_ids[j]@ != account_id@);
                    }
                    lemma_key_absent(self@, account_id@);
                },
            }
        }
        r
    }

    /// Stores `account` under `account_id`, in place of an earlier one or at
    /// the end.
    pub fn insert(&mut self, account_id: &String, account: Account)
        requires
            old(self).wf(),
            account.wf(),
        ensures
            final(self)@ == with_entry(old(self)@, account_id@, account@),
            final(self).wf(),
    {
        proof {
            lemma_with_entry(self@, account_id@, account@);
        }
        match self.find(account_id) {
            Some(i) => {
                self.accounts[i] = account;
                assert(self@ =~= with_entry(old(self)@, account_id@, account@));
            },
            None => {
                self.account_ids.push(account_id.clone());
                self.accounts.push(account);
                assert(self@ =~= with_entry(old(self)@, account_id@, account@));
            },
        }
    }
}

/// The mathematical value of the engine.
pub ghost struct ContractView {
    pub accounts: Seq<(Seq<char>, AccountView)>,
    pub sales: Seq<SaleView>,
    /// The count of the sales, which a well-formed engine keeps equal to
    /// their number.
    pub num_sales: nat,
    pub treasury: TreasuryView,
}

impl ContractView {
    /// The account `account_id`, if it was registered.
    pub open spec fn account(self, account_id: Seq<char>) -> Option<AccountView> {
        lookup(self.accounts, account_id)
    }

    /// The engine with `account` stored under `account_id`.
    pub open spec fn with_account(self, account_id: Seq<char>, account: AccountView) -> ContractView {
        ContractView { accounts: with_entry(self.accounts, account_id, account), ..self }
    }

    /// The engine after crediting `amount` of `token_id` to `account_id`.
    pub open spec fn credit(self, account_id: Seq<char>, token_id: Seq<char>, amount: nat) -> Result<
        ContractView,
        Error,
    > {
        match self.account(account_id) {
            None => Err(Error::AccountNotFound),
            Some(account) => match account.deposit_result(token_id, amount) {
                Err(e) => Err(e),
                Ok(_) => Ok(self.with_account(account_id, account.deposit(token_id, amount))),
            },
        }
    }

    /// The engine after debiting `amount` of `token_id` from `account_id`.
    pub open spec fn debit(self, account_id: Seq<char>, token_id: Seq<char>, amount: nat) -> Result<
        ContractView,
        Error,
    > {
        match self.account(account_id) {
            None => Err(Error::AccountNotFound),
            Some(account) => match account.withdraw_result(token_id, amount) {
                Err(e) => Err(e),
                Ok(_) => Ok(self.with_account(account_id, account.withdraw(token_id, amount))),
            },
        }
    }

    /// The engine after the treasury banks `amount` of `token_id`.
    pub open spec fn bank(self, token_id: Seq<char>, amount: nat) -> Result<ContractView, Error> {
        match self.treasury.deposit_result(token_id, amount) {
            Err(e) => Err(e),
            Ok(_) => Ok(ContractView { treasury: self.treasury.deposit(token_id, amount), ..self }),
        }
    }

    /// The engine after a donation of `amount` of `token_id` to the treasury.
    pub open spec fn donate(self, token_id: Seq<char>, amount: nat) -> Result<ContractView, Error> {
        match self.treasury.donate_result(token_id, amount) {
            Err(e) => Err(e),
            Ok(_) => Ok(ContractView { treasury: self.treasury.donate(token_id, amount), ..self }),
        }
    }

    /// The engine after `amount` of `token_id` goes to the owner of a sale:
    /// donated where the engine itself owns the sale, else credited.
    pub open spec fn pay_owner(
        self,
        owner_id: Seq<char>,
        engine_id: Seq<char>,
        token_id: Seq<char>,
        amount: nat,
    ) -> Result<ContractView, Error> {
        if owner_id == engine_id {
            self.donate(token_id, amount)
        } else {
            self.credit(owner_id, token_id, amount)
        }
    }

    /// The engine after the referral's part is paid: to the target's
    /// balance where the target has registered the token, else as a donation
    /// to the treasury.
    pub open spec fn pay_referral(self, target: Seq<char>, token_id: Seq<char>, cut: nat) -> Result<
        ContractView,
        Error,
    > {
        if cut == 0 {
            Ok(self)
        } else if self.account(target) is Some && self.account(target).unwrap().balance_of(
            token_id,
        ) is Some {
            self.credit(target, token_id, cut)
        } else {
            self.donate(token_id, cut)
        }
    }

    /// The engine with `sale` stored under `sale_id`.
    pub open spec fn with_sale(self, sale_id: nat, sale: SaleView) -> ContractView {
        ContractView { sales: self.sales.update(sale_id as int, sale), ..self }
    }

    /// The engine after the account `account_id` saves `subscription` for
    /// the sale.
    pub open spec fn save_subscription(
        self,
        account_id: Seq<char>,
        sale_id: nat,
        sale: SaleView,
        subscription: SubscriptionView,
    ) -> ContractView {
        match self.account(account_id) {
            Some(account) => self.with_account(
                account_id,
                account.save_subscription(sale_id, sale, subscription),
            ),
            None => self,
        }
    }

    /// `self` has the sales of `before` and every account of `before`: what
    /// payments leave alone.
    pub open spec fn extends(self, before: ContractView) -> bool {
        &&& self.sales == before.sales
        &&& forall|id: Seq<char>| before.account(id) is Some ==> self.account(id) is Some
    }
}

/// A payment into an account or into the treasury leaves the sales and the
/// set of accounts alone.
pub proof fn lemma_payment_frame(
    c: ContractView,
    account_id: Seq<char>,
    owner_id: Seq<char>,
    engine_id: Seq<char>,
    token_id: Seq<char>,
    amount: nat,
)
    requires
        distinct_keys(c.accounts),
    ensures
        c.credit(account_id, token_id, amount) is Ok ==> c.credit(
            account_id,
            token_id,
            amount,
        ).unwrap().extends(c) && distinct_keys(c.credit(account_id, token_id, amount).unwrap().accounts),
        c.debit(account_id, token_id, amount) is Ok ==> c.debit(
            account_id,
            token_id,
            amount,
        ).unwrap().extends(c) && distinct_keys(c.debit(account_id, token_id, amount).unwrap().accounts),
        c.bank(token_id, amount) is Ok ==> c.bank(token_id, amount).unwrap().extends(c)
            && c.bank(token_id, amount).unwrap().accounts == c.accounts,
        c.donate(token_id, amount) is Ok ==> c.donate(token_id, amount).unwrap().extends(c)
            && c.donate(token_id, amount).unwrap().accounts == c.accounts,
        c.pay_owner(owner_id, engine_id, token_id, amount) is Ok ==> c.pay_owner(
            owner_id,
            engine_id,
            token_id,
            amount,
        ).unwrap().extends(c) && distinct_keys(
            c.pay_owner(owner_id, engine_id, token_id, amount).unwrap().accounts,
        ),
        c.pay_referral(account_id, token_id, amount) is Ok ==> c.pay_referral(
            account_id,
            token_id,
            amount,
        ).unwrap().extends(c) && distinct_keys(
            c.pay_referral(account_id, token_id, amount).unwrap().accounts,
        ),
{
    if c.account(account_id) is Some {
        let a = c.account(account_id).unwrap();
        lemma_with_entry(c.accounts, account_id, a.deposit(token_id, amount));
        lemma_with_entry(c.accounts, account_id, a.withdraw(token_id, amount));
    }
    if c.account(owner_id) is Some {
        let a = c.account(owner_id).unwrap();
        lemma_with_entry(c.accounts, owner_id, a.deposit(token_id, amount));
    }
}

/// The engine.
#[derive(Debug)]
pub struct Contract {
    pub accounts: Accounts,
    /// The sales by id: sale `i` stands at place `i`.
    pub sales: Vec<Sale>,
    pub num_sales: u64,
    pub treasury: Treasury,
}

impl View for Contract {
    type V = ContractView;

    open spec fn view(&self) -> ContractView {
        ContractView {
            accounts: self.accounts@,
            sales: self.sales@.map_values(|s: Sale| s@),
            num_sales: self.num_sales as nat,
            treasury: self.treasury@,
        }
    }
}

impl Contract {
    /// The accounts, the sales and the treasury are well formed, and the
    /// sales are counted.
    pub open spec fn wf(&self) -> bool {
        &&& self.accounts.wf()
        &&& forall|i: int| 0 <= i < self.sales.len() ==> (#[trigger] self.sales[i])@.wf()
        &&& self.num_sales == self.sales.len()
        &&& self.treasury.wf()
    }

    /// An engine without accounts or sales.
    pub fn new(
        skyward_token_id: String,
        skyward_vesting_schedule: Vec<VestingInterval>,
        listing_fee_near: u128,
        w_near_token_id: String,
    ) -> (r: Self)
        requires
            skyward_token_id@ != w_near_token_id@,
            total_vested(skyward_vesting_schedule@) <= u128::MAX,
        ensures
            r.wf(),
            r@ == (ContractView {
                accounts: Seq::empty(),
                sales: Seq::empty(),
                num_sales: 0,
                treasury: TreasuryView {
                    balances: Seq::empty(),
                    skyward_token_id: skyward_token_id@,
                    skyward_burned_amount: 0,
                    skyward_vesting_schedule: skyward_vesting_schedule@,
                    listing_fee_near: listing_fee_near as nat,
                    w_near_token_id: w_near_token_id@,
                    locked_attached_deposits: 0,
                },
            }),
    {
        let r = Contract {
            accounts: Accounts::new(),
            sales: Vec::new(),
            num_sales: 0,
            treasury: Treasury::new(
                skyward_token_id,
                skyward_vesting_schedule,
                listing_fee_near,
                w_near_token_id,
            ),
        };
        assert(r@.sales =~= Seq::empty());
        r
    }

    /// Whether the engine is well formed: what every operation asks of the
    /// engine it is called on, and leaves behind.
    pub fn is_wf(&self) -> (r: bool)
        ensures
            r == self.wf(),
    {
        if !self.accounts.is_wf() || !self.treasury.is_wf() {
            return false;
        }
        if self.sales.len() as u64 != self.num_sales {
            return false;
        }
        let mut i: usize = 0;
        while i < self.sales.len()
            invariant
                i <= self.sales.len(),
                forall|j: int| 0 <= j < i ==> (#[trigger] self.sales[j])@.wf(),
            decreases self.sales.len() - i,
        {
            if !self.sales[i].is_wf() {
                return false;
            }
            i += 1;
        }
        true
    }

    /// A copy of the engine.
    pub fn duplicate(&self) -> (r: Self)
        requires
            self.wf(),
        ensures
            r@ == self@,
            r.wf(),
    {
        let mut sales: Vec<Sale> = Vec::new();
        let mut i: usize = 0;
        while i < self.sales.len()
            invariant
                i <= self.sales.len(),
                sales.len() == i,
                forall|j: int| 0 <= j < i ==> (#[trigger] sales[j])@ == self.sales[j]@,
            decreases self.sales.len() - i,
        {
            sales.push(self.sales[i].duplicate());
            i += 1;
        }
        let r = Contract {
            accounts: self.accounts.duplicate(),
            sales,
            num_sales: self.num_sales,
            treasury: self.treasury.duplicate(),
        };
        proof {
            assert(r@.sales =~= self@.sales);
            assert forall|j: int| 0 <= j < r.sales.len() implies (#[trigger] r.sales[j])@.wf() by {
                assert(self.sales[j]@.wf());
            }
        }
        r
    }

    /// The account `account_id`, or `AccountNotFound`.
    pub fn internal_unwrap_account(&self, account_id: &String) -> (r: Result<&Account, Error>)
        requires
            self.wf(),
        ensures
            match r {
                Ok(account) => self@.account(account_id@) == Some(account@) && account.wf(),
                Err(e) => e == Error::AccountNotFound && self@.account(account_id@) is None,
            },
    {
        match self.accounts.find(account_id) {
            Some(i) => Ok(&self.accounts.accounts[i]),
            None => Err(Error::AccountNotFound),
        }
    }

    /// A copy of the sale `sale_id`, touched at `now`, or `SaleNotFound`.
    pub fn internal_unwrap_sale(&self, sale_id: u64, now: u64, block_height: u64) -> (r: Result<
        Sale,
        Error,
    >)
        requires
            self.wf(),
        ensures
            match r {
                Ok(sale) => sale_id < self@.sales.len() && sale@ == self@.sales[sale_id as int].touch(
                    now as nat,
                    block_height as nat,
                ) && sale@.wf(),
                Err(e) => e == Error::SaleNotFound && sale_id >= self@.sales.len(),
            },
    {
        if sale_id >= self.num_sales {
            return Err(Error::SaleNotFound);
        }
        let mut sale = self.sales[sale_id as usize].duplicate();
        sale.touch(now, block_height);
        Ok(sale)
    }

    /// Credits `amount` of `token_id` to the account `account_id`, or
    /// refuses and changes nothing.
    pub fn internal_credit(&mut self, account_id: &String, token_id: &String, amount: u128) -> (r:
        Result<(), Error>)
        requires
            old(self).wf(),
        ensures
            match r {
                Ok(_) => old(self)@.credit(account_id@, token_id@, amount as nat) == Ok::<
                    ContractView,
                    Error,
                >(final(self)@),
                Err(e) => old(self)@.credit(account_id@, token_id@, amount as nat) == Err::<
                    ContractView,
                    Error,
                >(e) && final(self)@ == old(self)@,
            },
            final(self).wf(),
    {
        match self.accounts.find(account_id) {
            None => Err(Error::AccountNotFound),
            Some(i) => {
                let r = self.accounts.accounts[i].internal_token_deposit(token_id, amount);
                proof {
                    let before = old(self).accounts@;
                    lemma_with_entry(before, account_id@, self.accounts.accounts[i as int]@);
                    if r is Ok {
                        assert(self.accounts@ =~= with_entry(
                            before,
                            account_id@,
                            self.accounts.accounts[i as int]@,
                        ));
                    } else {
                        assert(self.accounts@ =~= before);
                    }
                }
                r
            },
        }
    }

    /// Debits `amount` of `token_id` from the account `account_id`, or
    /// refuses and changes nothing.
    pub fn internal_debit(&mut self, account_id: &String, token_id: &String, amount: u128) -> (r:
        Result<(), Error>)
        requires
            old(self).wf(),
        ensures
            match r {
                Ok(_) => old(self)@.debit(account_id@, token_id@, amount as nat) == Ok::<
                    ContractView,
                    Error,
                >(final(self)@),
                Err(e) => old(self)@.debit(account_id@, token_id@, amount as nat) == Err::<
                    ContractView,
                    Error,
                >(e) && final(self)@ == old(self)@,
            },
            final(self).wf(),
    {
        match self.accounts.find(account_id) {
            None => Err(Error::AccountNotFound),
            Some(i) => {
                let r = self.accounts.accounts[i].internal_token_withdraw(token_id, amount);
                proof {
                    let before = old(self).accounts@;
                    lemma_with_entry(before, account_id@, self.accounts.accounts[i as int]@);
                    if r is Ok {
                        assert(self.accounts@ =~= with_entry(
                            before,
                            account_id@,
                            self.accounts.accounts[i as int]@,
                        ));
                    } else {
                        assert(self.accounts@ =~= before);
                    }
                }
                r
            },
        }
    }

    /// Banks `amount` of `token_id` in the treasury, or refuses and changes
    /// nothing.
    pub fn internal_bank(&mut self, token_id: &String, amount: u128) -> (r: Result<(), Error>)
        requires
            old(self).wf(),
        ensures
            match r {
                Ok(_) => old(self)@.bank(token_id@, amount as nat) == Ok::<ContractView, Error>(
                    final(self)@,
                ),
                Err(e) => old(self)@.bank(token_id@, amount as nat) == Err::<ContractView, Error>(e)
                    && final(self)@ == old(self)@,
            },
            final(self).wf(),
    {
        self.treasury.internal_deposit(token_id, amount)
    }

    /// Donates `amount` of `token_id` to the treasury, or refuses and
    /// changes nothing.
    pub fn internal_donate(&mut self, token_id: &String, amount: u128) -> (r: Result<(), Error>)
        requires
            old(self).wf(),
        ensures
            match r {
                Ok(_) => old(self)@.donate(token_id@, amount as nat) == Ok::<ContractView, Error>(
                    final(self)@,
                ),
                Err(e) => old(self)@.donate(token_id@, amount as nat) == Err::<ContractView, Error>(
                    e,
                ) && final(self)@ == old(self)@,
            },
            final(self).wf(),
    {
        self.treasury.internal_donate(token_id, amount)
    }

    /// Pays `amount` of `token_id` to the owner of a sale, or refuses and
    /// changes nothing.
    pub fn internal_pay_owner(
        &mut self,
        owner_id: &String,
        current_account_id: &String,
        token_id: &String,
        amount: u128,
    ) -> (r: Result<(), Error>)
        requires
            old(self).wf(),
        ensures
            match r {
                Ok(_) => old(self)@.pay_owner(
                    owner_id@,
                    current_account_id@,
                    token_id@,
                    amount as nat,
                ) == Ok::<ContractView, Error>(final(self)@),
                Err(e) => old(self)@.pay_owner(
                    owner_id@,
                    current_account_id@,
                    token_id@,
                    amount as nat,
                ) == Err::<ContractView, Error>(e) && final(self)@ == old(self)@,
            },
            final(self).wf(),
    {
        if *owner_id == *current_account_id {
            self.internal_donate(token_id, amount)
        } else {
            self.internal_credit(owner_id, token_id, amount)
        }
    }

    /// Pays the referral's part of an earning to `target`, or to the treasury
    /// where the target has not registered the token; or refuses and changes
    /// nothing.
    pub fn internal_pay_referral(&mut self, target: &String, token_id: &String, cut: u128) -> (r: Result<
        (),
        Error,
    >)
        requires
            old(self).wf(),
        ensures
            match r {
                Ok(_) => old(self)@.pay_referral(target@, token_id@, cut as nat) == Ok::<
                    ContractView,
                    Error,
                >(final(self)@),
                Err(e) => old(self)@.pay_referral(target@, token_id@, cut as nat) == Err::<
                    ContractView,
                    Error,
                >(e) && final(self)@ == old(self)@,
            },
            final(self).wf(),
    {
        if cut == 0 {
            return Ok(());
        }
        let registered = match self.accounts.find(target) {
            Some(i) => self.accounts.accounts[i].balances.get(token_id).is_some(),
            None => false,
        };
        if registered {
            self.internal_credit(target, token_id, cut)
        } else {
            self.internal_donate(token_id, cut)
        }
    }

    /// Stores `sale` under the id of an existing sale.
    pub fn internal_store_sale(&mut self, sale_id: u64, sale: Sale)
        requires
            old(self).wf(),
            sale@.wf(),
            sale_id < old(self).sales.len(),
        ensures
            final(self)@ == old(self)@.with_sale(sale_id as nat, sale@),
            final(self).wf(),
    {
        self.sales[sale_id as usize] = sale;
        proof {
            assert(self@.sales =~= old(self)@.sales.update(sale_id as int, sale@));
        }
    }

    /// Saves `subscription` for the sale in the account `account_id`, which
    /// exists.
    pub fn internal_save_subscription(
        &mut self,
        account_id: &String,
        sale_id: u64,
        sale: &Sale,
        subscription: Subscription,
    )
        requires
            old(self).wf(),
            subscription@.wf(),
            old(self)@.account(account_id@) is Some,
        ensures
            final(self)@ == old(self)@.save_subscription(
                account_id@,
                sale_id as nat,
                sale@,
                subscription@,
            ),
            final(self).wf(),
    {
        match self.accounts.find(account_id) {
            None => {},
            Some(i) => {
                self.accounts.accounts[i].internal_save_subscription(sale_id, sale, subscription);
                proof {
                    let before = old(self).accounts@;
                    lemma_with_entry(before, account_id@, self.accounts.accounts[i as int]@);
                    assert(self.accounts@ =~= with_entry(
                        before,
                        account_id@,
                        self.accounts.accounts[i as int]@,
                    ));
                }
            },
        }
    }
}

} // verus!
